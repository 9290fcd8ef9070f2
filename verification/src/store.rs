//! The state of a local run: its operation, readers, writers, sources and log.

use vstd::prelude::*;
use vstd::string::*;

use crate::attempt::{copy_texts, AccessToken, MAX_ITEMS, MAX_ITEM_BYTES};
use crate::host::HostError;
use crate::inputs::{check_sources, source_views, sources_fault, LocalSource, LocalSourceView};
use crate::json::{
    json_text, lemma_array, lemma_object, member, members_of, text_in, values_of, write_json, Json, JsonValue,
};
use crate::logs::{
    charge, message_ceiling, LogBudget, LogKind, LogLevel, LOG_DROPPED_MESSAGE, LOG_ENTRY_BYTES, MAX_LOG_BYTES,
    MAX_LOG_LINE_BYTES,
};
use crate::manifest::{listed, lists, Action, Capability, Manifest};
use crate::redact::{
    law_redacted_holds_no_token, law_text_without_tokens_is_kept, redact_in_order, redact_value, redacted, redacted_value,
};
use crate::request::{lends, Cursor, Source, MAX_BATCH_BYTES, MAX_CURSOR_BYTES};
use crate::sources::{declared_schema, find_declared, is_source_schema, source_schema};
use crate::table::Table;
use crate::text::{
    byte_count, byte_len, decimal, fitting, joined, law_decimal_digits, law_replaced_one_by_one, law_truncation,
    occurs, occurs_at, push_text, replace_text, replaced, same_text, text_before, texts, truncate, write_decimal,
};
use crate::tool::Error;

verus! {

/// Where an operation stands.
#[derive(Clone, Copy, Debug, PartialEq, Eq, Structural)]
pub enum Phase {
    Queued,
    Running,
    Succeeded,
    Failed,
}

/// What a finished operation reports of its resources.
#[derive(Debug)]
pub struct Report {
    /// The name of each written resource and how many items were written.
    pub resources: Vec<(String, u64)>,
    /// The name of each read resource, how many items it has, and how many were read.
    pub reads: Vec<(String, u64, u64)>,
    /// The resource and key of each written item, where they are few and short.
    pub keys: Vec<(String, String)>,
    /// The keys were left out.
    pub truncated: bool,
    /// How many sources were read.
    pub source_count: u64,
}

/// What a report says.
pub ghost struct ReportView {
    pub resources: Seq<(Seq<char>, u64)>,
    pub reads: Seq<(Seq<char>, u64, u64)>,
    pub keys: Seq<(Seq<char>, Seq<char>)>,
    pub truncated: bool,
    pub source_count: u64,
}

impl View for Report {
    type V = ReportView;

    open spec fn view(&self) -> ReportView {
        ReportView {
            resources: self.resources@.map_values(|entry: (String, u64)| (entry.0@, entry.1)),
            reads: self.reads@.map_values(|entry: (String, u64, u64)| (entry.0@, entry.1, entry.2)),
            keys: self.keys@.map_values(|entry: (String, String)| (entry.0@, entry.1@)),
            truncated: self.truncated,
            source_count: self.source_count,
        }
    }
}

/// One operation, from its admission to its end.
#[derive(Debug)]
pub struct Operation {
    pub phase: Phase,
    pub attempt: u32,
    pub create_time: String,
    pub update_time: String,
    pub start_time: Option<String>,
    pub end_time: Option<String>,
    pub next_attempt_time: Option<String>,
    pub failure: Option<Json>,
    pub result_commit: Option<String>,
    pub report: Option<Report>,
}

/// What an operation is.
pub ghost struct OperationView {
    pub phase: Phase,
    pub attempt: u32,
    pub create_time: Seq<char>,
    pub update_time: Seq<char>,
    pub start_time: Option<Seq<char>>,
    pub end_time: Option<Seq<char>>,
    pub next_attempt_time: Option<Seq<char>>,
    pub failure: Option<JsonValue>,
    pub result_commit: Option<Seq<char>>,
    pub report: Option<ReportView>,
}

/// The text of an optional string.
pub open spec fn optional(text: Option<String>) -> Option<Seq<char>> {
    match text {
        Some(text) => Some(text@),
        None => None,
    }
}

impl View for Operation {
    type V = OperationView;

    open spec fn view(&self) -> OperationView {
        OperationView {
            phase: self.phase,
            attempt: self.attempt,
            create_time: self.create_time@,
            update_time: self.update_time@,
            start_time: optional(self.start_time),
            end_time: optional(self.end_time),
            next_attempt_time: optional(self.next_attempt_time),
            failure: match self.failure {
                Some(failure) => Some(failure@),
                None => None,
            },
            result_commit: optional(self.result_commit),
            report: match self.report {
                Some(report) => Some(report@),
                None => None,
            },
        }
    }
}

/// How far a resource was read: up to what was acknowledged, and up to where a
/// page was handed out that is not acknowledged yet.
#[derive(Clone, Copy, Debug, PartialEq, Eq, Structural)]
pub struct ReadState {
    pub acknowledged: usize,
    pub pending: Option<usize>,
    pub drained: bool,
}

/// What was written to a resource: the committed items by key, and those staged
/// since the last checkpoint.
#[derive(Debug)]
pub struct Writer {
    pub items: Table<Json>,
    pub written: u64,
    pub cursor: String,
    pub staged: Vec<(String, Json)>,
    pub staged_bytes: usize,
}

/// What was written to a resource.
pub ghost struct WriterView {
    pub items: Map<Seq<char>, JsonValue>,
    pub written: u64,
    pub cursor: Seq<char>,
    pub staged: Seq<(Seq<char>, JsonValue)>,
    pub staged_bytes: usize,
}

impl View for Writer {
    type V = WriterView;

    open spec fn view(&self) -> WriterView {
        WriterView {
            items: self.items@.map_values(|item: Json| item@),
            written: self.written,
            cursor: self.cursor@,
            staged: members_of(self.staged@),
            staged_bytes: self.staged_bytes,
        }
    }
}

impl Writer {
    /// The items are in order, and what is staged is one batch at most.
    pub open spec fn wf(&self) -> bool {
        self.items.wf() && self.staged@.len() <= MAX_ITEMS && self.staged_bytes <= MAX_BATCH_BYTES
    }

    /// A writer to which nothing was written.
    pub fn new() -> (writer: Writer)
        ensures
            writer.wf(),
            writer@ == (WriterView {
                items: Map::empty(),
                written: 0,
                cursor: ""@,
                staged: Seq::empty(),
                staged_bytes: 0,
            }),
    {
        let writer = Writer {
            items: Table::new(),
            written: 0,
            cursor: "".to_owned(),
            staged: Vec::new(),
            staged_bytes: 0,
        };
        proof {
            assert(writer@.items =~= Map::empty());
            assert(writer@.staged =~= Seq::empty());
        }
        writer
    }
}

/// What was read of a source by one reader.
#[derive(Debug)]
pub struct SourceRead {
    pub source_id: String,
    pub filename: String,
    pub sha256: String,
    pub size: u64,
}

/// What was read of a source.
pub ghost struct SourceReadView {
    pub source_id: Seq<char>,
    pub filename: Seq<char>,
    pub sha256: Seq<char>,
    pub size: u64,
}

impl View for SourceRead {
    type V = SourceReadView;

    open spec fn view(&self) -> SourceReadView {
        SourceReadView {
            source_id: self.source_id@,
            filename: self.filename@,
            sha256: self.sha256@,
            size: self.size,
        }
    }
}

/// The inputs of a run.
pub struct Inputs {
    pub action: String,
    pub parameters: Json,
    pub configuration: Json,
    pub readers: Table<Vec<Json>>,
    pub tokens: Table<String>,
}

/// What does not change during a run.
pub struct Setup {
    pub manifest: Manifest,
    pub inputs: Inputs,
    pub operation_id: String,
    pub workspace: String,
    pub input_commit: String,
}

impl Setup {
    /// The action that runs.
    pub open spec fn action(&self) -> Action {
        self.manifest.actions@[self.inputs.action@]
    }

    /// The action is declared, its readers have their items, and tokens are not empty.
    pub open spec fn wf(&self) -> bool {
        &&& self.manifest.wf()
        &&& self.manifest.actions@.dom().contains(self.inputs.action@)
        &&& self.inputs.readers.wf() && self.inputs.tokens.wf()
        &&& forall|name: Seq<char>| #[trigger]
            self.inputs.readers@.dom().contains(name) <==> self.action().permits(name, Capability::Read)
        &&& forall|index: int|
            0 <= index < self.inputs.tokens.entries@.len() ==> (#[trigger] self.inputs.tokens.entries@[index]).1@.len() > 0
    }

    /// The tokens in the order of their connections.
    pub open spec fn secrets(&self) -> Seq<Seq<char>> {
        self.inputs.tokens.entries@.map_values(|entry: (String, String)| entry.1@)
    }

    /// Returns the action that runs.
    pub fn find_action(&self) -> (action: &Action)
        requires
            self.wf(),
        ensures
            *action == self.action(),
            action.resources.wf(),
            self.manifest.declares(*action),
    {
        let action = self.manifest.actions.get(self.inputs.action.as_str());
        assert(self.manifest.declares(self.action()));
        action.unwrap()
    }

    /// Checks that the action may use `resource` in this way.
    pub fn capability(&self, resource: &str, capability: Capability) -> (granted: Result<(), HostError>)
        requires
            self.wf(),
        ensures
            granted == if self.action().permits(resource@, capability) {
                Ok::<(), HostError>(())
            } else {
                Err::<(), _>(HostError::Unauthorized)
            },
    {
        if self.find_action().allows(resource, capability) {
            Ok(())
        } else {
            Err(HostError::Unauthorized)
        }
    }
}

/// The state of a run.
pub struct Store {
    pub setup: Setup,
    pub operation: Option<Operation>,
    pub readers: Table<ReadState>,
    pub writers: Table<Writer>,
    pub sources: Table<LocalSource>,
    pub produced: Table<()>,
    pub bindings: Table<(String, String)>,
    pub lent: Table<()>,
    pub logs: Vec<String>,
    pub budget: LogBudget,
    pub source_reads: Table<SourceRead>,
}

/// The changing state of a run.
pub ghost struct StoreView {
    pub operation: Option<OperationView>,
    pub readers: Map<Seq<char>, ReadState>,
    pub writers: Map<Seq<char>, WriterView>,
    pub sources: Map<Seq<char>, LocalSourceView>,
    pub produced: Set<Seq<char>>,
    pub bindings: Map<Seq<char>, (Seq<char>, Seq<char>)>,
    pub lent: Set<Seq<char>>,
    pub logs: Seq<Seq<char>>,
    pub budget: LogBudget,
    pub source_reads: Map<Seq<char>, SourceReadView>,
}

/// What was written to each resource.
pub open spec fn writer_views(writers: Table<Writer>) -> Map<Seq<char>, WriterView> {
    writers@.map_values(|writer: Writer| writer@)
}

/// Under which resource and property each produced source was sealed.
pub open spec fn binding_views(bindings: Table<(String, String)>) -> Map<Seq<char>, (Seq<char>, Seq<char>)> {
    bindings@.map_values(|binding: (String, String)| (binding.0@, binding.1@))
}

impl View for Store {
    type V = StoreView;

    open spec fn view(&self) -> StoreView {
        StoreView {
            operation: match self.operation {
                Some(operation) => Some(operation@),
                None => None,
            },
            readers: self.readers@,
            writers: writer_views(self.writers),
            sources: source_views(self.sources),
            produced: self.produced@.dom(),
            bindings: binding_views(self.bindings),
            lent: self.lent@.dom(),
            logs: texts(self.logs@),
            budget: self.budget,
            source_reads: self.source_reads@.map_values(|read: SourceRead| read@),
        }
    }
}

impl StoreView {
    /// An attempt is running.
    pub open spec fn active(self) -> bool {
        self.operation matches Some(operation) && operation.phase == Phase::Running
    }

    /// The number of the attempt that was started last.
    pub open spec fn attempt(self) -> u32 {
        self.operation->0.attempt
    }
}

/// A reader stands within its items, and so does a page that it handed out.
pub open spec fn reader_holds(reader: ReadState, items: Seq<Json>) -> bool {
    reader.acknowledged <= items.len() && (reader.pending matches Some(end) ==> reader.acknowledged <= end
        <= items.len())
}

impl Store {
    /// What holds of a run at all times.
    pub open spec fn wf(&self) -> bool {
        &&& self.setup.wf()
        &&& self.readers.wf() && self.writers.wf() && self.sources.wf() && self.produced.wf() && self.bindings.wf()
        &&& self.lent.wf() && self.source_reads.wf() && self.budget.wf()
        &&& self.readers@.dom() == self.setup.inputs.readers@.dom()
        &&& forall|name: Seq<char>| #[trigger]
            self.readers@.dom().contains(name) ==> reader_holds(
                self.readers@[name],
                self.setup.inputs.readers@[name]@,
            )
        &&& forall|name: Seq<char>| #[trigger]
            self.writers@.dom().contains(name) <==> self.setup.action().permits(name, Capability::Write)
        &&& forall|name: Seq<char>| #[trigger] self.writers@.dom().contains(name) ==> self.writers@[name].wf()
        &&& self.produced@.dom() == self.bindings@.dom()
        &&& self.produced@.dom().subset_of(self.sources@.dom())
    }

    /// Checks that an attempt is running.
    pub fn check_active(&self) -> (active: Result<(), HostError>)
        ensures
            active == if self@.active() {
                Ok::<(), HostError>(())
            } else {
                Err::<(), _>(HostError::Stopped)
            },
    {
        match &self.operation {
            Some(operation) => {
                if operation.phase == Phase::Running {
                    Ok(())
                } else {
                    Err(HostError::Stopped)
                }
            },
            None => Err(HostError::Stopped),
        }
    }

    /// Admits the operation of this run.
    pub fn enqueue(&mut self, time: &str)
        requires
            old(self).wf(),
        ensures
            final(self).wf(),
            final(self).setup == old(self).setup,
            final(self)@ == (StoreView {
                operation: Some(
                    OperationView {
                        phase: Phase::Queued,
                        attempt: 0,
                        create_time: time@,
                        update_time: time@,
                        start_time: None,
                        end_time: None,
                        next_attempt_time: None,
                        failure: None,
                        result_commit: None,
                        report: None,
                    },
                ),
                ..old(self)@
            }),
    {
        self.operation = Some(
            Operation {
                phase: Phase::Queued,
                attempt: 0,
                create_time: time.to_owned(),
                update_time: time.to_owned(),
                start_time: None,
                end_time: None,
                next_attempt_time: None,
                failure: None,
                result_commit: None,
                report: None,
            },
        );
    }

    /// Queues the operation again, for an attempt not before `next`.
    pub fn retry(&mut self, time: &str, next: &str) -> (queued: Result<(), HostError>)
        requires
            old(self).wf(),
        ensures
            final(self).wf(),
            final(self).setup == old(self).setup,
            if old(self)@.active() {
                queued is Ok && final(self)@ == (StoreView {
                    operation: Some(
                        OperationView {
                            phase: Phase::Queued,
                            update_time: time@,
                            next_attempt_time: Some(next@),
                            ..old(self)@.operation->0
                        },
                    ),
                    ..old(self)@
                })
            } else {
                queued == Err::<(), _>(HostError::Stopped) && final(self)@ == old(self)@
            },
    {
        match self.operation.take() {
            None => Err(HostError::Stopped),
            Some(mut operation) => {
                if operation.phase != Phase::Running {
                    self.operation = Some(operation);
                    return Err(HostError::Stopped);
                }
                operation.phase = Phase::Queued;
                operation.update_time = time.to_owned();
                operation.next_attempt_time = Some(next.to_owned());
                self.operation = Some(operation);
                Ok(())
            },
        }
    }
}

/// What each writer is after its staged items were dropped.
pub open spec fn unstaged(writers: Map<Seq<char>, WriterView>) -> Map<Seq<char>, WriterView> {
    writers.map_values(|writer: WriterView| WriterView { staged: Seq::empty(), staged_bytes: 0, ..writer })
}

/// What each reader is after the page it handed out was forgotten.
pub open spec fn rewound(readers: Map<Seq<char>, ReadState>) -> Map<Seq<char>, ReadState> {
    readers.map_values(|reader: ReadState| ReadState { pending: None, ..reader })
}

/// Drops what is staged in every writer.
fn clear_staged(writers: &mut Table<Writer>)
    requires
        old(writers).wf(),
        forall|name: Seq<char>| #[trigger] old(writers)@.dom().contains(name) ==> old(writers)@[name].wf(),
    ensures
        final(writers).wf(),
        final(writers)@.dom() == old(writers)@.dom(),
        forall|name: Seq<char>| #[trigger] final(writers)@.dom().contains(name) ==> final(writers)@[name].wf(),
        writer_views(*final(writers)) == unstaged(writer_views(*old(writers))),
{
    let ghost before = *writers;
    let mut index: usize = 0;
    while index < writers.entries.len()
        invariant
            index <= writers.entries.len(),
            before.wf(),
            before == *old(writers),
            forall|name: Seq<char>| #[trigger] before@.dom().contains(name) ==> before@[name].wf(),
            writers.entries@.len() == before.entries@.len(),
            forall|i: int|
                0 <= i < writers.entries@.len() ==> (#[trigger] writers.entries@[i]).0@ == before.entries@[i].0@,
            forall|i: int|
                index <= i < writers.entries@.len() ==> #[trigger] writers.entries@[i] == before.entries@[i],
            forall|i: int|
                0 <= i < index ==> (#[trigger] writers.entries@[i]).1.wf() && writers.entries@[i].1@ == (WriterView {
                    staged: Seq::empty(),
                    staged_bytes: 0,
                    ..before.entries@[i].1@
                }),
        decreases writers.entries.len() - index,
    {
        proof {
            before.lemma_entry(index as int);
        }
        let (name, mut writer) = writers.entries.remove(index);
        writer.staged = Vec::new();
        writer.staged_bytes = 0;
        assert(writer@.staged =~= Seq::empty());
        writers.entries.insert(index, (name, writer));
        index += 1;
    }
    proof {
        assert(writers.names() =~= before.names());
        assert(writers@.dom() =~= before@.dom());
        assert forall|name: Seq<char>| #[trigger] writers@.dom().contains(name) implies writers@[name].wf()
            && writers@[name]@ == (WriterView { staged: Seq::empty(), staged_bytes: 0, ..before@[name]@ }) by {
            let at = writers.names().index_of(name);
            assert(writers.names()[at] == name);
            writers.lemma_entry(at);
            before.lemma_entry(at);
        }
        assert(writer_views(*writers) =~= unstaged(writer_views(before)));
    }
}

/// Forgets the pages that were handed out.
fn clear_pending(readers: &mut Table<ReadState>)
    requires
        old(readers).wf(),
    ensures
        final(readers).wf(),
        final(readers)@ == rewound(old(readers)@),
{
    let ghost before = *readers;
    let mut index: usize = 0;
    while index < readers.entries.len()
        invariant
            index <= readers.entries.len(),
            before.wf(),
            before == *old(readers),
            readers.entries@.len() == before.entries@.len(),
            forall|i: int|
                0 <= i < readers.entries@.len() ==> (#[trigger] readers.entries@[i]).0@ == before.entries@[i].0@,
            forall|i: int|
                index <= i < readers.entries@.len() ==> #[trigger] readers.entries@[i] == before.entries@[i],
            forall|i: int|
                0 <= i < index ==> (#[trigger] readers.entries@[i]).1 == (ReadState {
                    pending: None,
                    ..before.entries@[i].1
                }),
        decreases readers.entries.len() - index,
    {
        let (name, mut reader) = readers.entries.remove(index);
        reader.pending = None;
        readers.entries.insert(index, (name, reader));
        index += 1;
    }
    proof {
        assert(readers.names() =~= before.names());
        assert forall|name: Seq<char>| #[trigger] readers@.dom().contains(name) implies readers@[name] == (ReadState {
            pending: None,
            ..before@[name]
        }) by {
            let at = readers.names().index_of(name);
            assert(readers.names()[at] == name);
            readers.lemma_entry(at);
            before.lemma_entry(at);
        }
        assert(readers@ =~= rewound(before@));
    }
}

/// `value` mentions the source `id`, which is one of `sources`.
pub open spec fn mentions(value: JsonValue, sources: Set<Seq<char>>, id: Seq<char>) -> bool
    decreases value,
{
    match value {
        JsonValue::Text(text) => text == id && sources.contains(id),
        JsonValue::Array(items) => exists|index: int|
            0 <= index < items.len() && mentions(#[trigger] items[index], sources, id),
        JsonValue::Object(members) => exists|index: int|
            0 <= index < members.len() && mentions((#[trigger] members[index]).1, sources, id),
        _ => false,
    }
}

/// Adds every known source that `value` mentions to `lent`, and to `added` where it
/// was not lent before.
pub fn lend_sources(value: &Json, sources: &Table<LocalSource>, lent: &mut Table<()>, added: &mut Vec<String>)
    requires
        sources.wf(),
        old(lent).wf(),
    ensures
        final(lent).wf(),
        forall|id: Seq<char>| #[trigger]
            final(lent)@.dom().contains(id) <==> old(lent)@.dom().contains(id) || mentions(
                value@,
                sources@.dom(),
                id,
            ),
        forall|id: Seq<char>| #[trigger]
            lists(final(added)@, id) <==> lists(old(added)@, id) || (final(lent)@.dom().contains(id)
                && !old(lent)@.dom().contains(id)),
    decreases value,
{
    match value {
        Json::Text(id) => {
            if sources.contains(id.as_str()) && !lent.contains(id.as_str()) {
                lent.insert(id.clone(), ());
                let ghost before = added@;
                added.push(id.clone());
                assert forall|other: Seq<char>| #[trigger] lists(added@, other) <==> lists(before, other) || other == id@ by {
                    if lists(before, other) {
                        let i = choose|i: int| 0 <= i < before.len() && (#[trigger] before[i])@ == other;
                        assert(added@[i]@ == other);
                    }
                    if other == id@ {
                        assert(added@[before.len() as int]@ == other);
                    }
                }
            }
        },
        Json::Array(items) => {
            proof {
                lemma_array(*items);
            }
            let ghost all = values_of(items@);
            let mut index: usize = 0;
            while index < items.len()
                invariant
                    index <= items.len(),
                    *value == Json::Array(*items),
                    all == values_of(items@),
                    sources.wf(),
                    lent.wf(),
                    forall|id: Seq<char>| #[trigger]
                        lent@.dom().contains(id) <==> old(lent)@.dom().contains(id) || exists|i: int|
                            0 <= i < index && mentions(#[trigger] all[i], sources@.dom(), id),
                    forall|id: Seq<char>| #[trigger]
                        lists(added@, id) <==> lists(old(added)@, id) || (lent@.dom().contains(id)
                            && !old(lent)@.dom().contains(id)),
                decreases items.len() - index,
            {
                assert(decreases_to!(*value => value->Array_0));
                assert(decreases_to!(*items => items@));
                assert(decreases_to!(items@ => items@[index as int]));
                assert(all[index as int] == items@[index as int]@);
                let ghost before = lent@;
                lend_sources(&items[index], sources, lent, added);
                assert forall|id: Seq<char>| #[trigger] lent@.dom().contains(id) <==> old(lent)@.dom().contains(id)
                    || exists|i: int| 0 <= i < index + 1 && mentions(#[trigger] all[i], sources@.dom(), id) by {
                    assert(before.dom().contains(id) <==> old(lent)@.dom().contains(id) || exists|i: int|
                        0 <= i < index && mentions(#[trigger] all[i], sources@.dom(), id));
                    assert(lent@.dom().contains(id) <==> before.dom().contains(id) || mentions(
                        all[index as int],
                        sources@.dom(),
                        id,
                    ));
                }
                index += 1;
            }
            assert(value@->Array_0 == all);
        },
        Json::Object(members) => {
            proof {
                lemma_object(*members);
            }
            let ghost all = members_of(members@);
            let mut index: usize = 0;
            while index < members.len()
                invariant
                    index <= members.len(),
                    *value == Json::Object(*members),
                    all == members_of(members@),
                    sources.wf(),
                    lent.wf(),
                    forall|id: Seq<char>| #[trigger]
                        lent@.dom().contains(id) <==> old(lent)@.dom().contains(id) || exists|i: int|
                            0 <= i < index && mentions((#[trigger] all[i]).1, sources@.dom(), id),
                    forall|id: Seq<char>| #[trigger]
                        lists(added@, id) <==> lists(old(added)@, id) || (lent@.dom().contains(id)
                            && !old(lent)@.dom().contains(id)),
                decreases members.len() - index,
            {
                assert(decreases_to!(*value => value->Object_0));
                assert(decreases_to!(*members => members@));
                assert(decreases_to!(members@ => members@[index as int]));
                assert(decreases_to!(members@[index as int] => members@[index as int].1));
                assert(all[index as int] == (members@[index as int].0@, members@[index as int].1@));
                let ghost before = lent@;
                lend_sources(&members[index].1, sources, lent, added);
                assert forall|id: Seq<char>| #[trigger] lent@.dom().contains(id) <==> old(lent)@.dom().contains(id)
                    || exists|i: int| 0 <= i < index + 1 && mentions((#[trigger] all[i]).1, sources@.dom(), id) by {
                    assert(before.dom().contains(id) <==> old(lent)@.dom().contains(id) || exists|i: int|
                        0 <= i < index && mentions((#[trigger] all[i]).1, sources@.dom(), id));
                    assert(lent@.dom().contains(id) <==> before.dom().contains(id) || mentions(
                        all[index as int].1,
                        sources@.dom(),
                        id,
                    ));
                }
                index += 1;
            }
            assert(value@->Object_0 == all);
        },
        _ => {},
    }
}

/// The sources that the parameters of a run mention.
pub open spec fn parameter_sources(setup: Setup, sources: Set<Seq<char>>) -> Set<Seq<char>> {
    Set::new(|id: Seq<char>| mentions(setup.inputs.parameters@, sources, id))
}

impl Store {
    /// Starts an attempt of the queued operation: the one behind the last. What an
    /// earlier attempt left uncommitted is dropped.
    pub fn start(&mut self, attempt: u32, time: &str) -> (started: Result<(), Error>)
        requires
            old(self).wf(),
            attempt >= 1,
        ensures
            final(self).wf(),
            final(self).setup == old(self).setup,
            if old(self)@.operation matches Some(operation) && operation.phase == Phase::Queued && operation.attempt
                == attempt - 1 {
                &&& started is Ok
                &&& final(self)@ == (StoreView {
                    operation: Some(
                        OperationView {
                            phase: Phase::Running,
                            attempt,
                            update_time: time@,
                            start_time: if attempt == 1 {
                                Some(time@)
                            } else {
                                old(self)@.operation->0.start_time
                            },
                            next_attempt_time: None,
                            ..old(self)@.operation->0
                        },
                    ),
                    readers: rewound(old(self)@.readers),
                    writers: unstaged(old(self)@.writers),
                    lent: parameter_sources(old(self).setup, old(self)@.sources.dom()),
                    budget: LogBudget { bytes: 0, dropped: false },
                    ..old(self)@
                })
            } else {
                &&& started matches Err(Error::InvalidResponse(message)) && message@
                    == "local operation cannot claim this attempt"@
                &&& final(self)@ == old(self)@
            },
    {
        let claimed = match &self.operation {
            Some(operation) => operation.phase == Phase::Queued && operation.attempt == attempt - 1,
            None => false,
        };
        if !claimed {
            return Err(Error::InvalidResponse("local operation cannot claim this attempt".to_owned()));
        }
        self.budget = LogBudget::new();
        let mut lent: Table<()> = Table::new();
        let mut added: Vec<String> = Vec::new();
        lend_sources(&self.setup.inputs.parameters, &self.sources, &mut lent, &mut added);
        self.lent = lent;
        clear_pending(&mut self.readers);
        clear_staged(&mut self.writers);
        if let Some(mut operation) = self.operation.take() {
            if attempt == 1 {
                operation.start_time = Some(time.to_owned());
            }
            operation.update_time = time.to_owned();
            operation.phase = Phase::Running;
            operation.attempt = attempt;
            operation.next_attempt_time = None;
            self.operation = Some(operation);
        }
        proof {
            assert(self@.sources.dom() =~= self.sources@.dom());
            assert(self@.lent =~= parameter_sources(self.setup, self@.sources.dom()));
            assert(self.readers@.dom() =~= old(self).readers@.dom());
        }
        Ok(())
    }

    /// Drops what is staged, at the end of an attempt. An attempt that does not run any more
    /// is refused.
    pub fn finish(&mut self) -> (finished: Result<(), HostError>)
        requires
            old(self).wf(),
        ensures
            final(self).wf(),
            final(self).setup == old(self).setup,
            if old(self)@.active() {
                finished is Ok && final(self)@ == (StoreView { writers: unstaged(old(self)@.writers), ..old(self)@ })
            } else {
                finished == Err::<(), _>(HostError::Stopped) && final(self)@ == old(self)@
            },
    {
        match self.check_active() {
            Ok(_) => {},
            Err(error) => return Err(error),
        }
        clear_staged(&mut self.writers);
        Ok(())
    }

    /// These are where each writer stopped, in the order of their names; nothing where
    /// the action reads resources.
    pub open spec fn lists_cursors(&self, cursors: Seq<Cursor>) -> bool {
        if self.readers.names().len() > 0 {
            cursors.len() == 0
        } else {
            cursors.len() == self.writers.names().len() && forall|index: int|
                0 <= index < cursors.len() ==> (#[trigger] cursors[index]).name@ == self.writers.names()[index]
                    && cursors[index].value@ == self@.writers[self.writers.names()[index]].cursor
        }
    }

    /// Returns where each writer stopped, in the order of their names; nothing where
    /// the action reads resources.
    pub fn cursors(&self) -> (cursors: Vec<Cursor>)
        requires
            self.wf(),
        ensures
            self.lists_cursors(cursors@),
    {
        let mut cursors: Vec<Cursor> = Vec::new();
        if self.readers.entries.len() > 0 {
            return cursors;
        }
        let mut index: usize = 0;
        while index < self.writers.entries.len()
            invariant
                index <= self.writers.entries.len(),
                self.wf(),
                cursors@.len() == index,
                forall|i: int|
                    0 <= i < index ==> (#[trigger] cursors@[i]).name@ == self.writers.names()[i] && cursors@[i].value@
                        == self@.writers[self.writers.names()[i]].cursor,
            decreases self.writers.entries.len() - index,
        {
            proof {
                self.writers.lemma_entry(index as int);
            }
            let entry = &self.writers.entries[index];
            cursors.push(Cursor { name: entry.0.clone(), value: entry.1.cursor.clone() });
            index += 1;
        }
        cursors
    }

    /// These are the sources that the parameters mention, in the order of their ids.
    pub open spec fn lists_sources(&self, sources: Seq<Source>) -> bool {
        &&& forall|i: int, j: int|
            0 <= i < j < sources.len() ==> text_before((#[trigger] sources[i]).id@, (#[trigger] sources[j]).id@)
        &&& forall|id: Seq<char>| #[trigger]
            parameter_sources(self.setup, self@.sources.dom()).contains(id) ==> lends(sources, id)
        &&& forall|index: int|
            0 <= index < sources.len() ==> parameter_sources(self.setup, self@.sources.dom()).contains(
                (#[trigger] sources[index]).id@,
            ) && sources[index].filename@ == self@.sources[sources[index].id@].filename && sources[index].media_type@
                == self@.sources[sources[index].id@].media_type && sources[index].size
                == self@.sources[sources[index].id@].bytes.len() as u64
    }

    /// Returns the sources that the parameters mention, in the order of their ids.
    pub fn parameter_sources(&self) -> (sources: Vec<Source>)
        requires
            self.wf(),
        ensures
            self.lists_sources(sources@),
    {
        let mut ids: Table<()> = Table::new();
        let mut added: Vec<String> = Vec::new();
        lend_sources(&self.setup.inputs.parameters, &self.sources, &mut ids, &mut added);
        let ghost wanted = parameter_sources(self.setup, self@.sources.dom());
        proof {
            assert(self@.sources.dom() =~= self.sources@.dom());
            assert(ids@.dom() =~= wanted);
        }
        let mut sources: Vec<Source> = Vec::new();
        let mut index: usize = 0;
        while index < ids.entries.len()
            invariant
                index <= ids.entries.len(),
                self.wf(),
                ids.wf(),
                wanted == parameter_sources(self.setup, self@.sources.dom()),
                self@.sources.dom() == self.sources@.dom(),
                ids@.dom() == wanted,
                sources@.len() == index,
                forall|i: int|
                    0 <= i < index ==> (#[trigger] sources@[i]).id@ == ids.names()[i] && wanted.contains(sources@[i].id@)
                        && sources@[i].filename@ == self@.sources[sources@[i].id@].filename && sources@[i].media_type@
                        == self@.sources[sources@[i].id@].media_type && sources@[i].size
                        == self@.sources[sources@[i].id@].bytes.len() as u64,
            decreases ids.entries.len() - index,
        {
            let id = &ids.entries[index].0;
            proof {
                ids.lemma_entry(index as int);
                lemma_mentions_known(self.setup.inputs.parameters@, self@.sources.dom(), id@);
            }
            if let Some(source) = self.sources.get(id.as_str()) {
                sources.push(
                    Source {
                        id: id.clone(),
                        filename: source.filename.clone(),
                        media_type: source.media_type.clone(),
                        size: source.bytes.len() as u64,
                    },
                );
            }
            index += 1;
        }
        proof {
            assert forall|id: Seq<char>| #[trigger] wanted.contains(id) implies lends(sources@, id) by {
                let at = ids.names().index_of(id);
                assert(ids.names()[at] == id);
                assert(sources@[at].id@ == id);
            }
        }
        sources
    }

    /// Issues the supplied token of a connection that the action declares.
    pub fn access_token(&self, connection: &str, expires_at: &str) -> (token: Result<AccessToken, HostError>)
        requires
            self.wf(),
        ensures
            if !self@.active() {
                token == Err::<AccessToken, _>(HostError::Stopped)
            } else if !lists(self.setup.action().connections@, connection@)
                || !self.setup.inputs.tokens@.dom().contains(connection@) {
                token == Err::<AccessToken, _>(HostError::Unauthorized)
            } else {
                token matches Ok(token) && token.value@ == self.setup.inputs.tokens@[connection@]@ && token.expires_at@
                    == expires_at@ && texts(token.scopes@) == texts(
                    self.setup.manifest.connections@[connection@].scopes@,
                )
            },
    {
        match self.check_active() {
            Ok(_) => {},
            Err(error) => return Err(error),
        }
        let action = self.setup.find_action();
        if !listed(&action.connections, connection) {
            return Err(HostError::Unauthorized);
        }
        proof {
            let index = choose|i: int|
                0 <= i < action.connections@.len() && (#[trigger] action.connections@[i])@ == connection@;
            assert(self.setup.manifest.connections@.dom().contains(action.connections@[index]@));
        }
        let value = match self.setup.inputs.tokens.get(connection) {
            Some(value) => value.clone(),
            None => return Err(HostError::Unauthorized),
        };
        let scopes = match self.setup.manifest.connections.get(connection) {
            Some(declared) => copy_texts(&declared.scopes),
            None => Vec::new(),
        };
        Ok(AccessToken { value, expires_at: expires_at.to_owned(), scopes })
    }
}

proof fn lemma_mentions_known(value: JsonValue, sources: Set<Seq<char>>, id: Seq<char>)
    requires
        mentions(value, sources, id),
    ensures
        sources.contains(id),
    decreases value,
{
    match value {
        JsonValue::Array(items) => {
            let index = choose|index: int| 0 <= index < items.len() && mentions(#[trigger] items[index], sources, id);
            lemma_mentions_known(items[index], sources, id);
        },
        JsonValue::Object(members) => {
            let index = choose|index: int|
                0 <= index < members.len() && mentions((#[trigger] members[index]).1, sources, id);
            lemma_mentions_known(members[index].1, sources, id);
        },
        _ => {},
    }
}

/// A line of the local log: its level and its text, without the tokens and cut to
/// the line limit.
pub open spec fn local_line(setup: Setup, level: LogLevel, message: Seq<char>) -> Seq<char> {
    fitting(redacted(level.text_spec() + ": "@ + message, setup.secrets()), MAX_LOG_LINE_BYTES as int)
}

impl Setup {
    /// Returns the tokens in the order of their connections.
    fn tokens(&self) -> (tokens: Vec<String>)
        ensures
            texts(tokens@) == self.secrets(),
    {
        let mut tokens: Vec<String> = Vec::new();
        let mut index: usize = 0;
        while index < self.inputs.tokens.entries.len()
            invariant
                index <= self.inputs.tokens.entries.len(),
                tokens@.len() == index,
                forall|i: int| 0 <= i < index ==> (#[trigger] tokens@[i])@ == self.inputs.tokens.entries@[i].1@,
            decreases self.inputs.tokens.entries.len() - index,
        {
            tokens.push(self.inputs.tokens.entries[index].1.clone());
            index += 1;
        }
        assert(texts(tokens@) =~= self.secrets());
        tokens
    }

    /// Takes the tokens out of a text.
    pub fn redact(&self, message: &str) -> (output: String)
        ensures
            output@ == redacted(message@, self.secrets()),
    {
        redact_in_order(message, &self.tokens())
    }

    fn log_message(&self, level: LogLevel, message: &str) -> (line: String)
        ensures
            line@ == local_line(*self, level, message@),
            byte_count(line@) <= MAX_LOG_LINE_BYTES,
    {
        let mut text = joined(level.text(), ": ");
        push_text(&mut text, message);
        let mut line = self.redact(text.as_str());
        proof {
            law_truncation(line@, MAX_LOG_LINE_BYTES as int);
        }
        truncate(&mut line, MAX_LOG_LINE_BYTES);
        line
    }

    /// Takes the tokens out of a value; refused where two properties would collide.
    pub fn redact_value(&self, value: &Json) -> (output: Result<Json, HostError>)
        ensures
            match redacted_value(value@, self.secrets()) {
                Some(expected) => output matches Ok(output) && output@ == expected,
                None => output == Err::<Json, _>(HostError::Invalid("redacted item property names collide")),
            },
    {
        match redact_value(value, &self.tokens()) {
            Some(output) => Ok(output),
            None => Err(HostError::Invalid("redacted item property names collide")),
        }
    }
}

/// The log and its budget after one more line. Nothing is kept of an attempt that does not
/// run any more, nor once lines were dropped.
pub open spec fn local_logged(setup: Setup, state: StoreView, level: LogLevel, message: Seq<char>, kind: LogKind) -> StoreView {
    if !state.active() || state.budget.dropped {
        state
    } else {
        let own = local_line(setup, level, message);
        let exceeds = kind == LogKind::Message && state.budget.bytes + charge(own) > message_ceiling();
        let line = if exceeds {
            local_line(setup, LogLevel::Warn, LOG_DROPPED_MESSAGE@)
        } else {
            own
        };
        StoreView {
            logs: state.logs.push(line),
            budget: LogBudget {
                bytes: (state.budget.bytes + charge(line)) as usize,
                dropped: exceeds || kind == LogKind::DroppedNotice,
            },
            ..state
        }
    }
}

impl Store {
    /// Keeps a line of the log within the budget of the attempt.
    pub fn log(&mut self, level: LogLevel, message: &str, kind: LogKind)
        requires
            old(self).wf(),
        ensures
            final(self).wf(),
            final(self).setup == old(self).setup,
            final(self)@ == local_logged(old(self).setup, old(self)@, level, message@, kind),
    {
        if self.check_active().is_err() || self.budget.dropped {
            return ;
        }
        let mut line = self.setup.log_message(level, message);
        let mut dropped = kind == LogKind::DroppedNotice;
        if kind == LogKind::Message && self.budget.bytes + byte_len(line.as_str()) + LOG_ENTRY_BYTES > MAX_LOG_BYTES - (
        MAX_LOG_LINE_BYTES + LOG_ENTRY_BYTES) {
            dropped = true;
            line = self.setup.log_message(LogLevel::Warn, LOG_DROPPED_MESSAGE);
        }
        let bytes: usize = self.budget.bytes + byte_len(line.as_str()) + LOG_ENTRY_BYTES;
        self.budget = LogBudget { bytes, dropped };
        let ghost before = self.logs@;
        self.logs.push(line);
        assert(texts(self.logs@) =~= texts(before).push(line@));
    }
}

/// A line that is to be kept in the local log.
pub ghost struct LogCall {
    pub level: LogLevel,
    pub message: Seq<char>,
    pub kind: LogKind,
}

/// The state after these lines.
pub open spec fn local_logged_all(setup: Setup, state: StoreView, calls: Seq<LogCall>) -> StoreView
    decreases calls.len(),
{
    if calls.len() == 0 {
        state
    } else {
        let last = calls.last();
        local_logged(setup, local_logged_all(setup, state, calls.drop_last()), last.level, last.message, last.kind)
    }
}

/// What all the lines are charged.
pub open spec fn line_charges(lines: Seq<Seq<char>>) -> int
    decreases lines.len(),
{
    if lines.len() == 0 {
        0
    } else {
        line_charges(lines.drop_last()) + charge(lines.last())
    }
}

/// The line holds none of the tokens.
pub open spec fn holds_no_secret(setup: Setup, line: Seq<char>) -> bool {
    forall|token: Seq<char>| #[trigger] setup.secrets().contains(token) && token.len() > 0 ==> !occurs(line, token)
}

/// A line ends the log of a running attempt: it is the notice, or a line of the guest that
/// does not fit before the notice. What a line says does not matter.
pub open spec fn ends_log(setup: Setup, state: StoreView, call: LogCall) -> bool {
    call.kind == LogKind::DroppedNotice || state.budget.bytes + charge(local_line(setup, call.level, call.message))
        > message_ceiling()
}

/// Whatever is logged from the start of an attempt on, earlier lines stay, the new lines are
/// charged within the limit, none is longer than a line may be, and none holds a token.
/// Until a line ends the log, each is kept, in its order.
pub proof fn law_local_log_stays_within_budget(setup: Setup, state: StoreView, calls: Seq<LogCall>)
    requires
        state.active(),
        state.budget == (LogBudget { bytes: 0, dropped: false }),
    ensures
        ({
            let after = local_logged_all(setup, state, calls);
            let added = after.logs.skip(state.logs.len() as int);
            &&& after == (StoreView { logs: after.logs, budget: after.budget, ..state })
            &&& state.logs.is_prefix_of(after.logs)
            &&& line_charges(added) == after.budget.bytes
            &&& line_charges(added) <= MAX_LOG_BYTES
            &&& !after.budget.dropped ==> line_charges(added) <= message_ceiling()
            &&& forall|i: int| 0 <= i < added.len() ==> byte_count(#[trigger] added[i]) <= MAX_LOG_LINE_BYTES
            &&& forall|i: int| 0 <= i < added.len() ==> holds_no_secret(setup, #[trigger] added[i])
            &&& !after.budget.dropped ==> added.len() == calls.len() && forall|i: int|
                0 <= i < calls.len() ==> #[trigger] added[i] == local_line(setup, calls[i].level, calls[i].message)
        }),
    decreases calls.len(),
{
    if calls.len() == 0 {
        assert(state.logs.skip(state.logs.len() as int) =~= Seq::empty());
    } else {
        let last = calls.last();
        let before = local_logged_all(setup, state, calls.drop_last());
        law_local_log_stays_within_budget(setup, state, calls.drop_last());
        let after = local_logged_all(setup, state, calls);
        let earlier = before.logs.skip(state.logs.len() as int);
        let added = after.logs.skip(state.logs.len() as int);
        lemma_local_line(setup, last.level, last.message);
        lemma_local_line(setup, LogLevel::Warn, LOG_DROPPED_MESSAGE@);
        if !before.budget.dropped {
            let line = after.logs.last();
            assert(added =~= earlier.push(line));
            assert(added.drop_last() =~= earlier);
            assert forall|i: int| 0 <= i < added.len() implies holds_no_secret(setup, #[trigger] added[i]) && byte_count(
                added[i],
            ) <= MAX_LOG_LINE_BYTES by {
                if i < earlier.len() {
                    assert(added[i] == earlier[i]);
                } else {
                    assert(added[i] == line);
                }
            }
            if !after.budget.dropped {
                assert forall|i: int| 0 <= i < calls.len() implies #[trigger] added[i] == local_line(
                    setup,
                    calls[i].level,
                    calls[i].message,
                ) by {
                    if i < calls.len() - 1 {
                        assert(added[i] == earlier[i]);
                        assert(calls.drop_last()[i] == calls[i]);
                    }
                }
            }
        }
    }
}

proof fn lemma_local_line(setup: Setup, level: LogLevel, message: Seq<char>)
    ensures
        byte_count(local_line(setup, level, message)) <= MAX_LOG_LINE_BYTES,
        holds_no_secret(setup, local_line(setup, level, message)),
{
    let whole = redacted(level.text_spec() + ": "@ + message, setup.secrets());
    let line = local_line(setup, level, message);
    law_truncation(whole, MAX_LOG_LINE_BYTES as int);
    assert forall|token: Seq<char>| #[trigger] setup.secrets().contains(token) && token.len() > 0 implies !occurs(
        line,
        token,
    ) by {
        let index = choose|i: int| 0 <= i < setup.secrets().len() && setup.secrets()[i] == token;
        law_redacted_holds_no_token(level.text_spec() + ": "@ + message, setup.secrets(), index);
        if occurs(line, token) {
            let position = choose|position: int| occurs_at(line, token, position);
            assert(line == whole.subrange(0, line.len() as int));
            assert(whole.subrange(position, position + token.len()) =~= line.subrange(
                position,
                position + token.len(),
            ));
            assert(occurs_at(whole, token, position));
        }
    }
}

/// The first line that ends the log is answered with one last line, and nothing that comes
/// later is kept; no other line ends the log, whatever it says.
pub proof fn law_local_log_ends_once(setup: Setup, state: StoreView, calls: Seq<LogCall>, end: int)
    requires
        state.active(),
        0 <= end < calls.len(),
        !local_logged_all(setup, state, calls.take(end)).budget.dropped,
    ensures
        local_logged_all(setup, state, calls.take(end + 1)).budget.dropped <==> ends_log(
            setup,
            local_logged_all(setup, state, calls.take(end)),
            calls[end],
        ),
        local_logged_all(setup, state, calls.take(end + 1)).logs.len() == local_logged_all(
            setup,
            state,
            calls.take(end),
        ).logs.len() + 1,
        local_logged_all(setup, state, calls.take(end + 1)).budget.dropped ==> local_logged_all(setup, state, calls)
            == local_logged_all(setup, state, calls.take(end + 1)),
{
    let next = calls.take(end + 1);
    assert(next.drop_last() =~= calls.take(end));
    assert(next.last() == calls[end]);
    lemma_still_active(setup, state, calls.take(end));
    if local_logged_all(setup, state, next).budget.dropped {
        lemma_nothing_follows(setup, state, calls, end + 1);
    }
}

proof fn lemma_still_active(setup: Setup, state: StoreView, calls: Seq<LogCall>)
    requires
        state.active(),
    ensures
        local_logged_all(setup, state, calls).active(),
    decreases calls.len(),
{
    if calls.len() > 0 {
        lemma_still_active(setup, state, calls.drop_last());
    }
}

proof fn lemma_nothing_follows(setup: Setup, state: StoreView, calls: Seq<LogCall>, end: int)
    requires
        0 <= end <= calls.len(),
        local_logged_all(setup, state, calls.take(end)).budget.dropped,
    ensures
        local_logged_all(setup, state, calls) == local_logged_all(setup, state, calls.take(end)),
    decreases calls.len(),
{
    if end == calls.len() {
        assert(calls.take(end) =~= calls);
    } else {
        assert(calls.drop_last().take(end) =~= calls.take(end));
        lemma_nothing_follows(setup, state, calls.drop_last(), end);
    }
}

/// An item of a page: an opaque seed and the JSON text of the item.
#[derive(Debug)]
pub struct Item {
    pub seed: String,
    pub value: String,
}

/// Where a page from `start` ends that has come to `index` with `bytes` bytes: at the
/// end of the items, at the most items of a page, or before the item that does not
/// fit.
pub open spec fn page_end(items: Seq<Json>, start: int, index: int, bytes: int) -> int
    decreases items.len() - index,
{
    if index >= items.len() || index - start >= MAX_ITEMS || bytes + byte_count(json_text(items[index]@))
        > MAX_BATCH_BYTES {
        index
    } else {
        page_end(items, start, index + 1, bytes + byte_count(json_text(items[index]@)))
    }
}

/// Where a reader goes on: behind the page that it handed out, which asking for the
/// next one acknowledges.
pub open spec fn read_start(reader: ReadState) -> usize {
    match reader.pending {
        Some(end) => end,
        None => reader.acknowledged,
    }
}

/// `page` holds the items from `start` to before `end`.
pub open spec fn is_page(page: Seq<Item>, resource: Seq<char>, items: Seq<Json>, start: int, end: int) -> bool {
    page.len() == end - start && forall|index: int|
        0 <= index < page.len() ==> (#[trigger] page[index]).value@ == json_text(items[start + index]@)
            && page[index].seed@ == "local-"@ + resource + "-"@ + decimal((start + index + 1) as nat)
}

/// Some of the items from `start` to before `end` mentions the source `id`.
pub open spec fn items_mention(items: Seq<Json>, start: int, end: int, sources: Set<Seq<char>>, id: Seq<char>) -> bool {
    exists|index: int| start <= index < end && mentions((#[trigger] items[index])@, sources, id)
}

/// What a read changed, to be put back where the state could not be persisted.
pub struct ReadUndo {
    pub resource: String,
    pub reader: ReadState,
    pub added: Vec<String>,
}

/// The state without what a read changed.
pub open spec fn unread(state: StoreView, undo: ReadUndo) -> StoreView {
    StoreView {
        readers: state.readers.insert(undo.resource@, undo.reader),
        lent: state.lent.difference(Set::new(|id: Seq<char>| lists(undo.added@, id))),
        ..state
    }
}

impl Store {
    /// Hands out the next page of a resource, `None` behind its last item, and how to
    /// undo it. Asking for a page acknowledges the page before; the sources that its
    /// items mention are lent.
    pub fn read(&mut self, resource: &str) -> (page: Result<(Option<Vec<Item>>, ReadUndo), HostError>)
        requires
            old(self).wf(),
        ensures
            final(self).wf(),
            final(self).setup == old(self).setup,
            ({
                let state = old(self)@;
                if !old(self).setup.action().permits(resource@, Capability::Read) {
                    page == Err::<(Option<Vec<Item>>, ReadUndo), _>(HostError::Unauthorized) && final(self)@ == state
                } else if !state.active() {
                    page == Err::<(Option<Vec<Item>>, ReadUndo), _>(HostError::Stopped) && final(self)@ == state
                } else {
                    let items = old(self).setup.inputs.readers@[resource@]@;
                    let reader = state.readers[resource@];
                    let start = read_start(reader);
                    let end = page_end(items, start as int, start as int, 0);
                    &&& page matches Ok((handed, undo))
                    &&& undo.resource@ == resource@ && undo.reader == reader
                    &&& unread(final(self)@, undo) == state
                    &&& if start == items.len() {
                        &&& handed is None
                        &&& final(self)@ == (StoreView {
                            readers: state.readers.insert(
                                resource@,
                                ReadState { acknowledged: start, pending: None, drained: true },
                            ),
                            ..state
                        })
                    } else {
                        &&& handed matches Some(handed) && is_page(handed@, resource@, items, start as int, end)
                        &&& final(self)@ == (StoreView {
                            readers: state.readers.insert(
                                resource@,
                                ReadState { acknowledged: start, pending: Some(end as usize), drained: reader.drained },
                            ),
                            lent: final(self)@.lent,
                            ..state
                        })
                        &&& forall|id: Seq<char>| #[trigger]
                            final(self)@.lent.contains(id) <==> state.lent.contains(id) || items_mention(
                                items,
                                start as int,
                                end,
                                state.sources.dom(),
                                id,
                            )
                    }
                }
            }),
    {
        match self.setup.capability(resource, Capability::Read) {
            Ok(_) => {},
            Err(error) => return Err(error),
        }
        match self.check_active() {
            Ok(_) => {},
            Err(error) => return Err(error),
        }
        let ghost state = self@;
        assert(self.setup.inputs.readers@.dom().contains(resource@));
        let original: ReadState = match self.readers.get(resource) {
            Some(reader) => *reader,
            None => return Err(HostError::Unauthorized),
        };
        let start: usize = match original.pending {
            Some(end) => end,
            None => original.acknowledged,
        };
        let input = match self.setup.inputs.readers.get(resource) {
            Some(input) => input,
            None => return Err(HostError::Unauthorized),
        };
        let ghost items = self.setup.inputs.readers@[resource@]@;
        if start == input.len() {
            self.readers.insert(
                resource.to_owned(),
                ReadState { acknowledged: start, pending: None, drained: true },
            );
            let undo = ReadUndo { resource: resource.to_owned(), reader: original, added: Vec::new() };
            proof {
                assert(self.readers@.dom() =~= old(self).readers@.dom());
                assert(unread(self@, undo).readers =~= state.readers);
                assert(unread(self@, undo).lent =~= state.lent);
            }
            return Ok((None, undo));
        }
        let mut page: Vec<Item> = Vec::new();
        let mut bytes: usize = 0;
        let mut index: usize = start;
        let mut full = false;
        while index < input.len() && page.len() < MAX_ITEMS && !full
            invariant
                items == input@,
                start <= index <= input.len(),
                page@.len() == index - start,
                page@.len() <= MAX_ITEMS,
                bytes <= MAX_BATCH_BYTES,
                is_page(page@, resource@, items, start as int, index as int),
                page_end(items, start as int, start as int, 0) == if full {
                    index as int
                } else {
                    page_end(items, start as int, index as int, bytes as int)
                },
            decreases input.len() - index, (if full {
                0nat
            } else {
                1nat
            }),
        {
            let text = write_json(&input[index]);
            let length = byte_len(text.as_str());
            if length > MAX_BATCH_BYTES - bytes {
                full = true;
            } else {
                bytes += length;
                let mut seed = joined("local-", resource);
                push_text(&mut seed, "-");
                push_text(&mut seed, write_decimal(index as u64 + 1).as_str());
                page.push(Item { seed, value: text });
                index += 1;
            }
        }
        let end: usize = index;
        assert(end == page_end(items, start as int, start as int, 0));
        let mut added: Vec<String> = Vec::new();
        let mut at: usize = start;
        let ghost known = self.sources@.dom();
        let ghost before = self.lent@;
        while at < end
            invariant
                start <= at <= end <= self.setup.inputs.readers@[resource@]@.len(),
                items == self.setup.inputs.readers@[resource@]@,
                self.setup == old(self).setup,
                self.setup.inputs.readers.wf(),
                self.setup.inputs.readers@.dom().contains(resource@),
                self.sources == old(self).sources,
                self.sources.wf(),
                known == self.sources@.dom(),
                before == old(self).lent@,
                self.lent.wf(),
                self.operation == old(self).operation,
                self.readers == old(self).readers,
                self.writers == old(self).writers,
                self.produced == old(self).produced,
                self.bindings == old(self).bindings,
                self.logs == old(self).logs,
                self.budget == old(self).budget,
                self.source_reads == old(self).source_reads,
                forall|id: Seq<char>| #[trigger]
                    self.lent@.dom().contains(id) <==> before.dom().contains(id) || items_mention(
                        items,
                        start as int,
                        at as int,
                        known,
                        id,
                    ),
                forall|id: Seq<char>| #[trigger]
                    lists(added@, id) <==> self.lent@.dom().contains(id) && !before.dom().contains(id),
            decreases end - at,
        {
            let ghost earlier = self.lent@;
            if let Some(input) = self.setup.inputs.readers.get(resource) {
                lend_sources(&input[at], &self.sources, &mut self.lent, &mut added);
            }
            assert forall|id: Seq<char>| #[trigger] self.lent@.dom().contains(id) <==> before.dom().contains(id)
                || items_mention(items, start as int, at + 1, known, id) by {
                assert(earlier.dom().contains(id) <==> before.dom().contains(id) || items_mention(
                    items,
                    start as int,
                    at as int,
                    known,
                    id,
                ));
                if mentions(items[at as int]@, known, id) {
                    assert(items_mention(items, start as int, at + 1, known, id));
                }
            }
            at += 1;
        }
        self.readers.insert(
            resource.to_owned(),
            ReadState { acknowledged: start, pending: Some(end), drained: original.drained },
        );
        let undo = ReadUndo { resource: resource.to_owned(), reader: original, added };
        proof {
            assert(self.readers@.dom() =~= old(self).readers@.dom());
            assert(state.sources.dom() =~= known);
            assert(unread(self@, undo).readers =~= state.readers);
            assert(unread(self@, undo).lent =~= state.lent);
        }
        Ok((Some(page), undo))
    }

    /// Puts back what a read changed.
    pub fn undo_read(&mut self, undo: ReadUndo)
        requires
            old(self).wf(),
            old(self)@.readers.dom().contains(undo.resource@),
            reader_holds(undo.reader, old(self).setup.inputs.readers@[undo.resource@]@),
        ensures
            final(self).wf(),
            final(self).setup == old(self).setup,
            final(self)@ == unread(old(self)@, undo),
    {
        let ghost state = self@;
        let mut index: usize = 0;
        while index < undo.added.len()
            invariant
                index <= undo.added.len(),
                self.wf(),
                self.setup == old(self).setup,
                self@ == (StoreView { lent: self@.lent, ..state }),
                forall|id: Seq<char>| #[trigger]
                    self@.lent.contains(id) <==> state.lent.contains(id) && !exists|i: int|
                        0 <= i < index && (#[trigger] undo.added@[i])@ == id,
            decreases undo.added.len() - index,
        {
            let ghost earlier = self.lent@;
            self.lent.remove(undo.added[index].as_str());
            assert(self.lent@.dom() =~= earlier.dom().remove(undo.added@[index as int]@));
            index += 1;
        }
        proof {
            assert(self@.lent =~= unread(state, undo).lent);
        }
        self.readers.insert(undo.resource, undo.reader);
        assert(self.readers@.dom() =~= old(self).readers@.dom());
    }
}

/// The items after the staged ones were put under their keys, one after the other.
pub open spec fn applied(items: Map<Seq<char>, JsonValue>, staged: Seq<(Seq<char>, JsonValue)>) -> Map<
    Seq<char>,
    JsonValue,
>
    decreases staged.len(),
{
    if staged.len() == 0 {
        items
    } else {
        applied(items, staged.drop_last()).insert(staged.last().0, staged.last().1)
    }
}

/// What a checkpoint changed, to be put back where the state could not be persisted.
pub struct CheckpointUndo {
    pub resource: String,
    pub written: u64,
    pub cursor: String,
    pub staged_bytes: usize,
    /// The key of each applied item, and the item that stood there before.
    pub displaced: Vec<(String, Option<Json>)>,
    /// The writer before the checkpoint.
    pub before: Ghost<WriterView>,
}

/// The item under a key.
pub open spec fn item_at(items: Map<Seq<char>, JsonValue>, key: Seq<char>) -> Option<JsonValue> {
    if items.dom().contains(key) {
        Some(items[key])
    } else {
        None
    }
}

/// The value of an optional JSON value.
pub open spec fn optional_value(value: Option<Json>) -> Option<JsonValue> {
    match value {
        Some(value) => Some(value@),
        None => None,
    }
}

impl CheckpointUndo {
    /// The undo belongs to a writer whose items are now `items`.
    pub open spec fn fits(&self, items: Map<Seq<char>, JsonValue>) -> bool {
        let before = self.before@;
        &&& self.written == before.written
        &&& self.cursor@ == before.cursor
        &&& self.staged_bytes == before.staged_bytes && self.staged_bytes <= MAX_BATCH_BYTES
        &&& self.displaced@.len() == before.staged.len() && before.staged.len() <= MAX_ITEMS
        &&& items == applied(before.items, before.staged)
        &&& displaces(self.displaced@, before)
    }
}

/// Each displaced entry names the key of a staged item, and what stood there when the
/// items before it had been applied.
pub open spec fn displaces(displaced: Seq<(String, Option<Json>)>, before: WriterView) -> bool {
    forall|index: int|
        0 <= index < displaced.len() ==> (#[trigger] displaced[index]).0@ == before.staged[index].0 && optional_value(
            displaced[index].1,
        ) == item_at(applied(before.items, before.staged.take(index)), before.staged[index].0)
}

/// The state after a checkpoint of a writer: what was staged is committed, together
/// with the cursor.
pub open spec fn checkpointed(state: StoreView, resource: Seq<char>, cursor: Seq<char>) -> StoreView {
    let writer = state.writers[resource];
    StoreView {
        writers: state.writers.insert(
            resource,
            WriterView {
                items: applied(writer.items, writer.staged),
                written: (writer.written + writer.staged.len()) as u64,
                cursor,
                staged: Seq::empty(),
                staged_bytes: 0,
            },
        ),
        ..state
    }
}

/// Why a checkpoint is refused, if it is.
pub open spec fn checkpoint_fault(setup: Setup, state: StoreView, resource: Seq<char>, cursor: Seq<char>) -> Option<HostError> {
    if !setup.action().permits(resource, Capability::Write) {
        Some(HostError::Unauthorized)
    } else if byte_count(cursor) > MAX_CURSOR_BYTES {
        Some(HostError::TooLarge)
    } else if !state.active() {
        Some(HostError::Stopped)
    } else if state.readers.dom().len() > 0 && cursor.len() > 0 {
        Some(HostError::Invalid("reader actions have no provider cursor"))
    } else {
        None
    }
}

/// The values of a table of items.
pub open spec fn item_views(items: Table<Json>) -> Map<Seq<char>, JsonValue> {
    items@.map_values(|item: Json| item@)
}

fn apply_staged(items: &mut Table<Json>, staged: Vec<(String, Json)>) -> (displaced: Vec<(String, Option<Json>)>)
    requires
        old(items).wf(),
    ensures
        final(items).wf(),
        item_views(*final(items)) == applied(item_views(*old(items)), members_of(staged@)),
        displaced@.len() == staged@.len(),
        forall|index: int|
            0 <= index < displaced@.len() ==> (#[trigger] displaced@[index]).0@ == members_of(staged@)[index].0
                && optional_value(displaced@[index].1) == item_at(
                applied(item_views(*old(items)), members_of(staged@).take(index)),
                members_of(staged@)[index].0,
            ),
{
    let ghost start = item_views(*items);
    let ghost all = members_of(staged@);
    let ghost whole = staged@;
    let mut left = staged;
    let mut displaced: Vec<(String, Option<Json>)> = Vec::new();
    assert(all.take(0) =~= Seq::empty());
    while left.len() > 0
        invariant
            items.wf(),
            start == item_views(*old(items)),
            all == members_of(whole),
            displaced@.len() + left@.len() == whole.len(),
            left@ == whole.skip(displaced@.len() as int),
            item_views(*items) == applied(start, all.take(displaced@.len() as int)),
            forall|index: int|
                0 <= index < displaced@.len() ==> (#[trigger] displaced@[index]).0@ == all[index].0 && optional_value(
                    displaced@[index].1,
                ) == item_at(applied(start, all.take(index)), all[index].0),
        decreases left@.len(),
    {
        let ghost done = displaced@.len() as int;
        assert(whole.skip(done)[0] == whole[done]);
        assert(whole.skip(done).remove(0) =~= whole.skip(done + 1));
        let (key, value) = left.remove(0);
        let ghost before = items@;
        let ghost pair = (key@, value@);
        assert(all[done] == pair);
        let previous = items.insert(key.clone(), value);
        proof {
            assert(item_views(*items) =~= applied(start, all.take(done)).insert(pair.0, pair.1));
            assert(all.take(done + 1).drop_last() =~= all.take(done));
            assert(all.take(done + 1).last() == pair);
            assert(optional_value(previous) == item_at(applied(start, all.take(done)), pair.0));
        }
        displaced.push((key, previous));
    }
    assert(all.take(all.len() as int) =~= all);
    displaced
}

impl Store {
    /// Commits what is staged in a writer together with its cursor, and returns how to
    /// undo it.
    pub fn checkpoint(&mut self, resource: &str, cursor: &str) -> (committed: Result<CheckpointUndo, HostError>)
        requires
            old(self).wf(),
            old(self).writers@.dom().contains(resource@) ==> old(self).writers@[resource@].written <= u64::MAX - MAX_ITEMS,
        ensures
            final(self).wf(),
            final(self).setup == old(self).setup,
            match checkpoint_fault(old(self).setup, old(self)@, resource@, cursor@) {
                Some(error) => committed == Err::<CheckpointUndo, _>(error) && final(self)@ == old(self)@,
                None => {
                    &&& committed matches Ok(undo)
                    &&& final(self)@ == checkpointed(old(self)@, resource@, cursor@)
                    &&& undo.resource@ == resource@
                    &&& undo.before@ == old(self)@.writers[resource@]
                    &&& undo.fits(final(self)@.writers[resource@].items)
                },
            },
    {
        match self.setup.capability(resource, Capability::Write) {
            Ok(_) => {},
            Err(error) => return Err(error),
        }
        if byte_len(cursor) > MAX_CURSOR_BYTES {
            return Err(HostError::TooLarge);
        }
        match self.check_active() {
            Ok(_) => {},
            Err(error) => return Err(error),
        }
        proof {
            self.lemma_reader_count();
        }
        if self.readers.entries.len() > 0 && !cursor.is_empty() {
            return Err(HostError::Invalid("reader actions have no provider cursor"));
        }
        let ghost state = self@;
        let mut writer = match self.writers.remove(resource) {
            Some(writer) => writer,
            None => return Err(HostError::Unauthorized),
        };
        let ghost before = writer@;
        let written = writer.written;
        let staged_bytes = writer.staged_bytes;
        let staged = writer.staged;
        let count = staged.len();
        let old_cursor = writer.cursor;
        let displaced = apply_staged(&mut writer.items, staged);
        let next = Writer {
            items: writer.items,
            written: written + count as u64,
            cursor: cursor.to_owned(),
            staged: Vec::new(),
            staged_bytes: 0,
        };
        assert(next@.staged =~= Seq::empty());
        self.writers.insert(resource.to_owned(), next);
        let undo = CheckpointUndo {
            resource: resource.to_owned(),
            written,
            cursor: old_cursor,
            staged_bytes,
            displaced,
            before: Ghost(before),
        };
        proof {
            assert(self.writers@.dom() =~= old(self).writers@.dom());
            assert(self@.writers =~= checkpointed(state, resource@, cursor@).writers);
            assert(displaces(undo.displaced@, before));
        }
        Ok(undo)
    }

    /// There are readers exactly where some entry stands in their table.
    proof fn lemma_reader_count(&self)
        requires
            self.readers.wf(),
        ensures
            self@.readers.dom().len() > 0 <==> self.readers.entries@.len() > 0,
    {
        let names = self.readers.names();
        assert(self@.readers.dom() =~= names.to_set());
        vstd::seq_lib::seq_to_set_is_finite(names);
        if self.readers.entries@.len() > 0 {
            assert(names.to_set().contains(names[0]));
            assert(names.to_set().len() > 0) by {
                if names.to_set().len() == 0 {
                    assert(names.to_set() =~= Set::empty());
                }
            }
        } else {
            assert(names.to_set() =~= Set::empty());
        }
    }

    /// Puts back what a checkpoint changed: the items, the cursor, the count, and what
    /// was staged, in its order.
    pub fn undo_checkpoint(&mut self, undo: CheckpointUndo)
        requires
            old(self).wf(),
            old(self)@.writers.dom().contains(undo.resource@),
            undo.fits(old(self)@.writers[undo.resource@].items),
        ensures
            final(self).wf(),
            final(self).setup == old(self).setup,
            final(self)@ == (StoreView {
                writers: old(self)@.writers.insert(undo.resource@, undo.before@),
                ..old(self)@
            }),
    {
        let ghost state = self@;
        let ghost target = undo.before@;
        let ghost name = undo.resource@;
        let mut writer = match self.writers.remove(undo.resource.as_str()) {
            Some(writer) => writer,
            None => return ,
        };
        let mut displaced = undo.displaced;
        let mut items = writer.items;
        let mut reversed: Vec<(String, Json)> = Vec::new();
        let ghost count = displaced@.len();
        assert(target.staged.take(count as int) =~= target.staged);
        while displaced.len() > 0
            invariant
                items.wf(),
                count == target.staged.len(),
                displaced@.len() + reversed@.len() == count,
                displaces(displaced@, target),
                item_views(items) == applied(target.items, target.staged.take(displaced@.len() as int)),
                forall|i: int|
                    0 <= i < reversed@.len() ==> ((#[trigger] reversed@[i]).0@, reversed@[i].1@) == target.staged[count
                        - 1 - i],
            decreases displaced@.len(),
        {
            let ghost last = displaced@.len() - 1;
            let ghost earlier = applied(target.items, target.staged.take(last));
            proof {
                assert(target.staged.take(last + 1).drop_last() =~= target.staged.take(last));
                assert(target.staged.take(last + 1).last() == target.staged[last]);
                assert(displaced@[last].0@ == target.staged[last].0);
            }
            let ghost full = item_views(items);
            let ghost entry = displaced@[last];
            match displaced.pop() {
                Some((key, previous)) => {
                    assert(full == earlier.insert(key@, target.staged[last].1));
                    assert(items@.dom().contains(key@)) by {
                        assert(full.dom().contains(key@));
                    }
                    let removed = items.remove(key.as_str());
                    let ghost without = item_views(items);
                    assert(without =~= full.remove(key@));
                    let ghost held = key@;
                    match removed {
                        Some(value) => {
                            assert(value@ == full[held]);
                            reversed.push((key.clone(), value));
                        },
                        None => {},
                    }
                    match previous {
                        Some(value) => {
                            let ghost restored = value@;
                            items.insert(key, value);
                            assert(item_views(items) =~= without.insert(held, restored));
                            assert(item_views(items) =~= earlier);
                        },
                        None => {
                            assert(item_views(items) =~= earlier);
                        },
                    }
                },
                None => {},
            }
            assert forall|index: int| 0 <= index < displaced@.len() implies (#[trigger] displaced@[index]).0@
                == target.staged[index].0 && optional_value(displaced@[index].1) == item_at(
                applied(target.items, target.staged.take(index)),
                target.staged[index].0,
            ) by {}
        }
        assert(target.staged.take(0) =~= Seq::empty());
        let staged = reverse_items(reversed);
        let restored = Writer {
            items,
            written: undo.written,
            cursor: undo.cursor,
            staged,
            staged_bytes: undo.staged_bytes,
        };
        proof {
            assert(restored@.staged =~= target.staged);
            assert(restored@.items =~= target.items);
        }
        self.writers.insert(undo.resource, restored);
        proof {
            assert(self.writers@.dom() =~= old(self).writers@.dom());
            assert(self@.writers =~= state.writers.insert(name, target));
        }
    }
}

fn reverse_items(items: Vec<(String, Json)>) -> (reversed: Vec<(String, Json)>)
    ensures
        reversed@.len() == items@.len(),
        forall|index: int|
            0 <= index < reversed@.len() ==> #[trigger] reversed@[index] == items@[items@.len() - 1 - index],
{
    let mut left = items;
    let mut reversed: Vec<(String, Json)> = Vec::new();
    while left.len() > 0
        invariant
            left@.len() + reversed@.len() == items@.len(),
            left@ == items@.take(left@.len() as int),
            forall|index: int|
                0 <= index < reversed@.len() ==> #[trigger] reversed@[index] == items@[items@.len() - 1 - index],
        decreases left@.len(),
    {
        let ghost before = left@;
        match left.pop() {
            Some(item) => {
                reversed.push(item);
            },
            None => {},
        }
        assert(left@ =~= items@.take(left@.len() as int));
    }
    reversed
}

/// A reader loses no page and repeats none but on a retry: the page behind one that was
/// handed out begins where that one ends, and a new attempt begins with the page that was
/// handed out last, which nothing acknowledged.
pub proof fn law_pages_follow_each_other(readers: Map<Seq<char>, ReadState>, resource: Seq<char>, items: Vec<Json>)
    requires
        readers.dom().contains(resource),
        reader_holds(readers[resource], items@),
        read_start(readers[resource]) < items@.len(),
    ensures
        ({
            let start = read_start(readers[resource]);
            let end = page_end(items@, start as int, start as int, 0) as usize;
            let handed = ReadState { acknowledged: start, pending: Some(end), drained: readers[resource].drained };
            let retried = rewound(readers.insert(resource, handed))[resource];
            &&& read_start(handed) == page_end(items@, start as int, start as int, 0)
            &&& read_start(retried) == start
            &&& reader_holds(handed, items@)
            &&& reader_holds(retried, items@)
        }),
{
    let start = read_start(readers[resource]) as int;
    lemma_page_bounds(items@, start, start, 0);
    assert(items.len() == items@.len());
}

/// A page is never empty before the last item, and never longer than a page may be, where
/// every item fits into a page: a reader comes to the end of its items.
pub proof fn law_pages_come_to_an_end(items: Seq<Json>, start: int)
    requires
        0 <= start < items.len(),
        forall|index: int| 0 <= index < items.len() ==> byte_count(json_text((#[trigger] items[index])@)) <= MAX_BATCH_BYTES,
    ensures
        start < page_end(items, start, start, 0) <= items.len(),
        page_end(items, start, start, 0) - start <= MAX_ITEMS,
{
    lemma_page_bounds(items, start, start + 1, byte_count(json_text(items[start]@)) as int);
}

proof fn lemma_page_bounds(items: Seq<Json>, start: int, index: int, bytes: int)
    requires
        0 <= start <= index <= items.len(),
        index - start <= MAX_ITEMS,
    ensures
        index <= page_end(items, start, index, bytes) <= items.len(),
        page_end(items, start, index, bytes) - start <= MAX_ITEMS,
    decreases items.len() - index,
{
    if !(index >= items.len() || index - start >= MAX_ITEMS || bytes + byte_count(json_text(items[index]@))
        > MAX_BATCH_BYTES) {
        lemma_page_bounds(items, start, index + 1, bytes + byte_count(json_text(items[index]@)));
    }
}

/// A checkpoint that could not be persisted leaves no trace: undoing it gives the
/// state before it back, whatever keys were staged, also one several times.
pub proof fn law_failed_checkpoint_leaves_no_trace(state: StoreView, resource: Seq<char>, cursor: Seq<char>)
    requires
        state.writers.dom().contains(resource),
    ensures
        (StoreView {
            writers: checkpointed(state, resource, cursor).writers.insert(resource, state.writers[resource]),
            ..checkpointed(state, resource, cursor)
        }) == state,
{
    assert(checkpointed(state, resource, cursor).writers.insert(resource, state.writers[resource]) =~= state.writers);
}

/// Items of one write while they come in, for the attempt in which it began.
pub struct Incoming {
    pub attempt: u32,
    pub staged: Vec<(String, Json)>,
    pub bytes: usize,
}

impl Incoming {
    /// The write is within its bounds.
    pub open spec fn wf(&self) -> bool {
        self.staged@.len() <= MAX_ITEMS && self.bytes <= MAX_BATCH_BYTES
    }

    /// One more item of `text` fits.
    pub open spec fn admits(&self, text: Seq<char>) -> bool {
        byte_count(text) <= MAX_ITEM_BYTES && self.staged@.len() < MAX_ITEMS && self.bytes + byte_count(text)
            <= MAX_BATCH_BYTES
    }
}

/// Why an item's source is refused.
#[derive(Clone, Copy, Debug, PartialEq, Eq, Structural)]
pub enum ItemFault {
    NotText,
    OtherProperty,
    NotLent,
}

impl ItemFault {
    /// The error for this fault.
    pub open spec fn error_spec(self) -> HostError {
        match self {
            ItemFault::NotText => HostError::Invalid("source reference must be a string"),
            ItemFault::OtherProperty => HostError::Invalid("source was sealed under a different writer property"),
            ItemFault::NotLent => HostError::Invalid("source was not lent to this attempt"),
        }
    }

    fn error(&self) -> (error: HostError)
        ensures
            error == self.error_spec(),
    {
        match self {
            ItemFault::NotText => HostError::Invalid("source reference must be a string"),
            ItemFault::OtherProperty => HostError::Invalid("source was sealed under a different writer property"),
            ItemFault::NotLent => HostError::Invalid("source was not lent to this attempt"),
        }
    }
}

/// A property name in a pointer.
pub open spec fn escaped(name: Seq<char>) -> Seq<char> {
    replaced(replaced(name, "~"@, "~0"@), "/"@, "~1"@)
}

/// A reference to `id` at `pointer` is refused: a produced source belongs to the
/// property under which it was sealed, another one must be lent.
pub open spec fn reference_fault(state: StoreView, resource: Seq<char>, pointer: Seq<char>, id: Seq<char>) -> Option<
    ItemFault,
> {
    if state.bindings.dom().contains(id) {
        let (owner, property) = state.bindings[id];
        if owner != resource || pointer != "/properties/"@ + property {
            Some(ItemFault::OtherProperty)
        } else {
            None
        }
    } else if !state.lent.contains(id) {
        Some(ItemFault::NotLent)
    } else {
        None
    }
}

/// The first refused source of an item at `pointer`, read by `schema`.
pub open spec fn item_fault(
    schema: JsonValue,
    value: JsonValue,
    pointer: Seq<char>,
    resource: Seq<char>,
    state: StoreView,
) -> Option<ItemFault>
    decreases value,
{
    if value is Null {
        None
    } else if is_source_schema(schema) && !(value is Text) {
        Some(ItemFault::NotText)
    } else if is_source_schema(schema) && reference_fault(state, resource, pointer, value->Text_0) is Some {
        reference_fault(state, resource, pointer, value->Text_0)
    } else {
        match value {
            JsonValue::Object(members) => item_members_fault(schema, members, pointer, resource, state),
            JsonValue::Array(items) => match member(schema, "items"@) {
                Some(child) => item_elements_fault(child, items, pointer + "/items"@, resource, state),
                None => None,
            },
            _ => None,
        }
    }
}

/// The first refused source among the members of an object.
pub open spec fn item_members_fault(
    schema: JsonValue,
    members: Seq<(Seq<char>, JsonValue)>,
    pointer: Seq<char>,
    resource: Seq<char>,
    state: StoreView,
) -> Option<ItemFault>
    decreases members,
{
    if members.len() == 0 {
        None
    } else {
        match item_members_fault(schema, members.drop_last(), pointer, resource, state) {
            Some(fault) => Some(fault),
            None => {
                let (name, value) = members.last();
                match declared_schema(schema, name) {
                    Some(child) => item_fault(
                        child,
                        members.last().1,
                        pointer + "/properties/"@ + escaped(name),
                        resource,
                        state,
                    ),
                    None => match member(schema, "additionalProperties"@) {
                        Some(JsonValue::Object(inner)) => item_fault(
                            JsonValue::Object(inner),
                            members.last().1,
                            pointer + "/additionalProperties"@,
                            resource,
                            state,
                        ),
                        _ => None,
                    },
                }
            },
        }
    }
}

/// The first refused source among the items of an array.
pub open spec fn item_elements_fault(
    schema: JsonValue,
    items: Seq<JsonValue>,
    pointer: Seq<char>,
    resource: Seq<char>,
    state: StoreView,
) -> Option<ItemFault>
    decreases items,
{
    if items.len() == 0 {
        None
    } else {
        match item_elements_fault(schema, items.drop_last(), pointer, resource, state) {
            Some(fault) => Some(fault),
            None => item_fault(schema, items.last(), pointer, resource, state),
        }
    }
}

proof fn lemma_item_members(
    schema: JsonValue,
    members: Seq<(Seq<char>, JsonValue)>,
    pointer: Seq<char>,
    resource: Seq<char>,
    state: StoreView,
    count: int,
)
    requires
        0 <= count <= members.len(),
        item_members_fault(schema, members.take(count), pointer, resource, state) is Some,
    ensures
        item_members_fault(schema, members, pointer, resource, state) == item_members_fault(
            schema,
            members.take(count),
            pointer,
            resource,
            state,
        ),
    decreases members.len() - count,
{
    if count == members.len() {
        assert(members.take(count) =~= members);
    } else {
        assert(members.take(count + 1).drop_last() =~= members.take(count));
        lemma_item_members(schema, members, pointer, resource, state, count + 1);
    }
}

proof fn lemma_item_elements(
    schema: JsonValue,
    items: Seq<JsonValue>,
    pointer: Seq<char>,
    resource: Seq<char>,
    state: StoreView,
    count: int,
)
    requires
        0 <= count <= items.len(),
        item_elements_fault(schema, items.take(count), pointer, resource, state) is Some,
    ensures
        item_elements_fault(schema, items, pointer, resource, state) == item_elements_fault(
            schema,
            items.take(count),
            pointer,
            resource,
            state,
        ),
    decreases items.len() - count,
{
    if count == items.len() {
        assert(items.take(count) =~= items);
    } else {
        assert(items.take(count + 1).drop_last() =~= items.take(count));
        lemma_item_elements(schema, items, pointer, resource, state, count + 1);
    }
}

impl Store {
    fn check_reference(&self, resource: &str, pointer: &str, id: &str) -> (checked: Result<(), ItemFault>)
        requires
            self.wf(),
        ensures
            match checked {
                Ok(_) => reference_fault(self@, resource@, pointer@, id@) is None,
                Err(fault) => reference_fault(self@, resource@, pointer@, id@) == Some(fault),
            },
    {
        match self.bindings.get(id) {
            Some(binding) => {
                let direct = joined("/properties/", binding.1.as_str());
                if !same_text(binding.0.as_str(), resource) || !same_text(pointer, direct.as_str()) {
                    return Err(ItemFault::OtherProperty);
                }
                Ok(())
            },
            None => {
                if self.lent.contains(id) {
                    Ok(())
                } else {
                    Err(ItemFault::NotLent)
                }
            },
        }
    }

    /// Checks that every source of an item was lent, or was sealed for that property.
    pub fn validate_item_sources(&self, schema: &Json, value: &Json, pointer: &str, resource: &str) -> (checked: Result<
        (),
        ItemFault,
    >)
        requires
            self.wf(),
        ensures
            match checked {
                Ok(_) => item_fault(schema@, value@, pointer@, resource@, self@) is None,
                Err(fault) => item_fault(schema@, value@, pointer@, resource@, self@) == Some(fault),
            },
        decreases value,
    {
        if let Json::Null = value {
            return Ok(());
        }
        if source_schema(schema) {
            match value.as_text() {
                None => return Err(ItemFault::NotText),
                Some(id) => {
                    match self.check_reference(resource, pointer, id) {
                        Ok(_) => {},
                        Err(fault) => return Err(fault),
                    }
                },
            }
        }
        match value {
            Json::Object(members) => {
                let ghost all = members_of(members@);
                proof {
                    lemma_object(*members);
                    assert(all.take(0) =~= Seq::empty());
                }
                let mut index: usize = 0;
                while index < members.len()
                    invariant
                        index <= members.len(),
                        self.wf(),
                        *value == Json::Object(*members),
                        all == members_of(members@),
                        item_fault(schema@, value@, pointer@, resource@, self@) == item_members_fault(
                            schema@,
                            all,
                            pointer@,
                            resource@,
                            self@,
                        ),
                        item_members_fault(schema@, all.take(index as int), pointer@, resource@, self@) is None,
                    decreases members.len() - index,
                {
                    assert(decreases_to!(*value => value->Object_0));
                    assert(decreases_to!(*members => members@));
                    assert(decreases_to!(members@ => members@[index as int]));
                    assert(decreases_to!(members@[index as int] => members@[index as int].1));
                    proof {
                        assert(all.take(index + 1).drop_last() =~= all.take(index as int));
                        assert(all.take(index + 1).last() == (members@[index as int].0@, members@[index as int].1@));
                    }
                    let name = members[index].0.as_str();
                    let outcome: Result<(), ItemFault> = match find_declared(schema, name) {
                        Some(child) => {
                            let mut inner = joined(pointer, "/properties/");
                            let tilde = replace_text(name, "~", "~0");
                            let escaped_name = replace_text(tilde.as_str(), "/", "~1");
                            push_text(&mut inner, escaped_name.as_str());
                            self.validate_item_sources(child, &members[index].1, inner.as_str(), resource)
                        },
                        None => match schema.get("additionalProperties") {
                            Some(child) => match child {
                                Json::Object(_) => {
                                    let inner = joined(pointer, "/additionalProperties");
                                    self.validate_item_sources(child, &members[index].1, inner.as_str(), resource)
                                },
                                _ => Ok(()),
                            },
                            None => Ok(()),
                        },
                    };
                    match outcome {
                        Ok(_) => {},
                        Err(fault) => {
                            proof {
                                lemma_item_members(schema@, all, pointer@, resource@, self@, index + 1);
                            }
                            return Err(fault);
                        },
                    }
                    index += 1;
                }
                assert(all.take(all.len() as int) =~= all);
                Ok(())
            },
            Json::Array(items) => {
                let ghost all = values_of(items@);
                proof {
                    lemma_array(*items);
                    assert(all.take(0) =~= Seq::empty());
                }
                let child = match schema.get("items") {
                    Some(child) => child,
                    None => return Ok(()),
                };
                let inner = joined(pointer, "/items");
                let mut index: usize = 0;
                while index < items.len()
                    invariant
                        index <= items.len(),
                        self.wf(),
                        *value == Json::Array(*items),
                        all == values_of(items@),
                        inner@ == pointer@ + "/items"@,
                        item_fault(schema@, value@, pointer@, resource@, self@) == item_elements_fault(
                            child@,
                            all,
                            inner@,
                            resource@,
                            self@,
                        ),
                        item_elements_fault(child@, all.take(index as int), inner@, resource@, self@) is None,
                    decreases items.len() - index,
                {
                    assert(decreases_to!(*value => value->Array_0));
                    assert(decreases_to!(*items => items@));
                    assert(decreases_to!(items@ => items@[index as int]));
                    proof {
                        assert(all.take(index + 1).drop_last() =~= all.take(index as int));
                        assert(all.take(index + 1).last() == items@[index as int]@);
                    }
                    match self.validate_item_sources(child, &items[index], inner.as_str(), resource) {
                        Ok(_) => {},
                        Err(fault) => {
                            proof {
                                lemma_item_elements(child@, all, inner@, resource@, self@, index + 1);
                            }
                            return Err(fault);
                        },
                    }
                    index += 1;
                }
                assert(all.take(all.len() as int) =~= all);
                Ok(())
            },
            _ => Ok(()),
        }
    }

    /// Begins a write to a resource.
    pub fn begin_write(&self, resource: &str) -> (incoming: Result<Incoming, HostError>)
        requires
            self.wf(),
        ensures
            if !self.setup.action().permits(resource@, Capability::Write) {
                incoming == Err::<Incoming, _>(HostError::Unauthorized)
            } else if !self@.active() {
                incoming == Err::<Incoming, _>(HostError::Stopped)
            } else if self.setup.manifest.resources@[resource@].key is None {
                incoming == Err::<Incoming, _>(HostError::Invalid("writer has no key"))
            } else {
                incoming matches Ok(incoming) && incoming.wf() && incoming.attempt == self@.attempt()
                    && incoming.staged@.len() == 0 && incoming.bytes == 0
            },
    {
        match self.setup.capability(resource, Capability::Write) {
            Ok(_) => {},
            Err(error) => return Err(error),
        }
        match self.check_active() {
            Ok(_) => {},
            Err(error) => return Err(error),
        }
        let attempt: u32 = match &self.operation {
            Some(operation) => operation.attempt,
            None => 0,
        };
        let action = self.setup.find_action();
        assert(self.setup.manifest.resources@.dom().contains(resource@));
        match self.setup.manifest.resources.get(resource) {
            Some(declaration) => {
                if declaration.key.is_none() {
                    return Err(HostError::Invalid("writer has no key"));
                }
            },
            None => return Err(HostError::Unauthorized),
        }
        Ok(Incoming { attempt, staged: Vec::new(), bytes: 0 })
    }

    /// Takes one item of a write in, and returns it without the tokens.
    ///
    /// `parsed` is the value of `text`, where it is a strict JSON object.
    pub fn receive_item(&self, incoming: &Incoming, text: &str, parsed: Option<Json>) -> (received: Result<
        Json,
        HostError,
    >)
        requires
            incoming.wf(),
        ensures
            if !incoming.admits(text@) {
                received == Err::<Json, _>(HostError::TooLarge)
            } else {
                match parsed {
                    None => received == Err::<Json, _>(HostError::Invalid("item is not valid JSON")),
                    Some(value) => match redacted_value(value@, self.setup.secrets()) {
                        None => received == Err::<Json, _>(
                            HostError::Invalid("redacted item property names collide"),
                        ),
                        Some(expected) => received matches Ok(received) && received@ == expected,
                    },
                }
            },
    {
        let length = byte_len(text);
        if length > MAX_ITEM_BYTES || incoming.staged.len() >= MAX_ITEMS || incoming.bytes + length > MAX_BATCH_BYTES {
            return Err(HostError::TooLarge);
        }
        match parsed {
            None => Err(HostError::Invalid("item is not valid JSON")),
            Some(value) => self.setup.redact_value(&value),
        }
    }

    /// Keeps a redacted item that satisfies its schema, under the text of its key.
    pub fn keep_item(&self, resource: &str, incoming: &mut Incoming, text: &str, value: Json, conforms: bool) -> (kept: Result<
        (),
        HostError,
    >)
        requires
            self.wf(),
            old(incoming).wf(),
            old(incoming).admits(text@),
            self.setup.action().permits(resource@, Capability::Write),
            self.setup.manifest.resources@[resource@].key is Some,
        ensures
            final(incoming).wf(),
            final(incoming).attempt == old(incoming).attempt,
            ({
                let key = text_in(member(value@, self.setup.manifest.resources@[resource@].key->0@));
                if !conforms {
                    kept == Err::<(), _>(HostError::Invalid("item violates its schema")) && *final(incoming)
                        == *old(incoming)
                } else if key is None {
                    kept == Err::<(), _>(HostError::Invalid("item key is missing")) && *final(incoming)
                        == *old(incoming)
                } else {
                    kept is Ok && members_of(final(incoming).staged@) == members_of(old(incoming).staged@).push(
                        (key->0, value@),
                    ) && final(incoming).bytes == old(incoming).bytes + byte_count(text@)
                }
            }),
    {
        if !conforms {
            return Err(HostError::Invalid("item violates its schema"));
        }
        let action = self.setup.find_action();
        assert(self.setup.manifest.resources@.dom().contains(resource@));
        let key = match self.setup.manifest.resources.get(resource) {
            Some(declaration) => match &declaration.key {
                Some(key) => key,
                None => return Err(HostError::Invalid("item key is missing")),
            },
            None => return Err(HostError::Invalid("item key is missing")),
        };
        let id = match value.get_text(key.as_str()) {
            Some(id) => id.to_owned(),
            None => return Err(HostError::Invalid("item key is missing")),
        };
        incoming.bytes += byte_len(text);
        let ghost before = incoming.staged@;
        let ghost pair = (id@, value@);
        incoming.staged.push((id, value));
        assert(members_of(incoming.staged@) =~= members_of(before).push(pair));
        Ok(())
    }
}

/// Why the items of a write are refused from `index` on, if they are.
pub open spec fn write_fault(
    schema: JsonValue,
    staged: Seq<(Seq<char>, JsonValue)>,
    resource: Seq<char>,
    state: StoreView,
    index: int,
) -> Option<HostError>
    decreases staged.len() - index,
{
    if index >= staged.len() {
        None
    } else if sources_fault(schema, staged[index].1, state.sources) is Some {
        Some(HostError::Invalid("item source violates its declaration"))
    } else {
        match item_fault(schema, staged[index].1, ""@, resource, state) {
            Some(fault) => Some(fault.error_spec()),
            None => write_fault(schema, staged, resource, state, index + 1),
        }
    }
}

impl Store {
    fn check_staged(&self, schema: &Json, staged: &Vec<(String, Json)>, resource: &str) -> (checked: Result<(), HostError>)
        requires
            self.wf(),
        ensures
            match checked {
                Ok(_) => write_fault(schema@, members_of(staged@), resource@, self@, 0) is None,
                Err(error) => write_fault(schema@, members_of(staged@), resource@, self@, 0) == Some(error),
            },
    {
        let ghost all = members_of(staged@);
        let mut index: usize = 0;
        while index < staged.len()
            invariant
                index <= staged.len(),
                self.wf(),
                all == members_of(staged@),
                write_fault(schema@, all, resource@, self@, 0) == write_fault(
                    schema@,
                    all,
                    resource@,
                    self@,
                    index as int,
                ),
            decreases staged.len() - index,
        {
            assert(all[index as int].1 == staged@[index as int].1@);
            let value = &staged[index].1;
            match check_sources(schema, value, &self.sources) {
                Ok(_) => {},
                Err(_) => return Err(HostError::Invalid("item source violates its declaration")),
            }
            match self.validate_item_sources(schema, value, "", resource) {
                Ok(_) => {},
                Err(fault) => return Err(fault.error()),
            }
            index += 1;
        }
        Ok(())
    }

    /// Stages the items of a write: all of them, or none.
    pub fn commit_write(&mut self, resource: &str, connection: Option<&str>, incoming: Incoming) -> (staged: Result<
        (),
        HostError,
    >)
        requires
            old(self).wf(),
            incoming.wf(),
            old(self).setup.action().permits(resource@, Capability::Write),
        ensures
            final(self).wf(),
            final(self).setup == old(self).setup,
            ({
                let state = old(self)@;
                let writer = state.writers[resource@];
                let items = members_of(incoming.staged@);
                let fault = if !state.active() || state.attempt() != incoming.attempt {
                    Some(HostError::Stopped)
                } else if connection matches Some(connection) && !lists(
                    old(self).setup.action().connections@,
                    connection@,
                ) {
                    Some(HostError::Unauthorized)
                } else if write_fault(
                    old(self).setup.manifest.resources@[resource@].schema@,
                    items,
                    resource@,
                    state,
                    0,
                ) is Some {
                    write_fault(old(self).setup.manifest.resources@[resource@].schema@, items, resource@, state, 0)
                } else if writer.staged.len() + items.len() > MAX_ITEMS || writer.staged_bytes + incoming.bytes
                    > MAX_BATCH_BYTES {
                    Some(HostError::TooLarge)
                } else {
                    None
                };
                match fault {
                    Some(error) => staged == Err::<(), _>(error) && final(self)@ == state,
                    None => staged is Ok && final(self)@ == (StoreView {
                        writers: state.writers.insert(
                            resource@,
                            WriterView {
                                staged: writer.staged + items,
                                staged_bytes: (writer.staged_bytes + incoming.bytes) as usize,
                                ..writer
                            },
                        ),
                        ..state
                    }),
                }
            }),
    {
        match self.check_active() {
            Ok(_) => {},
            Err(error) => return Err(error),
        }
        if let Some(operation) = &self.operation {
            if operation.attempt != incoming.attempt {
                return Err(HostError::Stopped);
            }
        }
        let action = self.setup.find_action();
        if let Some(connection) = connection {
            if !listed(&action.connections, connection) {
                return Err(HostError::Unauthorized);
            }
        }
        assert(self.setup.manifest.resources@.dom().contains(resource@));
        match self.setup.manifest.resources.get(resource) {
            Some(declaration) => {
                match self.check_staged(&declaration.schema, &incoming.staged, resource) {
                    Ok(_) => {},
                    Err(error) => return Err(error),
                }
            },
            None => return Err(HostError::Unauthorized),
        }
        assert(self.writers@.dom().contains(resource@));
        if let Some(writer) = self.writers.get(resource) {
            if writer.staged.len() + incoming.staged.len() > MAX_ITEMS || writer.staged_bytes + incoming.bytes
                > MAX_BATCH_BYTES {
                return Err(HostError::TooLarge);
            }
        }
        let ghost state = self@;
        let ghost items = members_of(incoming.staged@);
        if let Some(writer) = self.writers.remove(resource) {
            let mut more = incoming.staged;
            let mut held = writer.staged;
            let ghost before = held@;
            held.append(&mut more);
            let next = Writer {
                items: writer.items,
                written: writer.written,
                cursor: writer.cursor,
                staged: held,
                staged_bytes: writer.staged_bytes + incoming.bytes,
            };
            assert(next@.staged =~= members_of(before) + items);
            self.writers.insert(resource.to_owned(), next);
        }
        proof {
            assert(self.writers@.dom() =~= old(self).writers@.dom());
            assert(self@.writers =~= state.writers.insert(
                resource@,
                WriterView {
                    staged: state.writers[resource@].staged + items,
                    staged_bytes: (state.writers[resource@].staged_bytes + incoming.bytes) as usize,
                    ..state.writers[resource@]
                },
            ));
        }
        Ok(())
    }
}

/// The last of the staged items under a key.
pub open spec fn is_last_staged(staged: Seq<(Seq<char>, JsonValue)>, key: Seq<char>, index: int) -> bool {
    &&& 0 <= index < staged.len()
    &&& staged[index].0 == key
    &&& forall|later: int| index < later < staged.len() ==> (#[trigger] staged[later]).0 != key
}

/// Under each key stands the item that was staged last for it, and where none was, the item
/// that stood there before; no other key is added, and none is lost.
pub proof fn law_staged_items_are_committed(
    items: Map<Seq<char>, JsonValue>,
    staged: Seq<(Seq<char>, JsonValue)>,
    key: Seq<char>,
)
    ensures
        ({
            let after = applied(items, staged);
            &&& forall|index: int| #[trigger]
                is_last_staged(staged, key, index) ==> after.dom().contains(key) && after[key] == staged[index].1
            &&& (forall|index: int| 0 <= index < staged.len() ==> (#[trigger] staged[index]).0 != key) ==> item_at(after, key)
                == item_at(items, key)
            &&& after.dom().contains(key) ==> items.dom().contains(key) || exists|index: int| #[trigger]
                is_last_staged(staged, key, index)
        }),
    decreases staged.len(),
{
    if staged.len() > 0 {
        let earlier = staged.drop_last();
        let last = staged.len() - 1;
        law_staged_items_are_committed(items, earlier, key);
        let before = applied(items, earlier);
        let after = applied(items, staged);
        if staged.last().0 == key {
            assert(is_last_staged(staged, key, last));
            assert forall|index: int| #[trigger] is_last_staged(staged, key, index) implies index == last by {
                if index < last {
                    assert(staged[last].0 != key);
                }
            }
        } else {
            assert forall|index: int| #[trigger] is_last_staged(staged, key, index) implies after.dom().contains(key)
                && after[key] == staged[index].1 by {
                assert(index < last);
                assert(is_last_staged(earlier, key, index)) by {
                    assert forall|later: int| index < later < earlier.len() implies (#[trigger] earlier[later]).0 != key by {
                        assert(staged[later].0 != key);
                    }
                }
            }
            if after.dom().contains(key) && !items.dom().contains(key) {
                let index = choose|index: int| #[trigger] is_last_staged(earlier, key, index);
                assert(is_last_staged(staged, key, index)) by {
                    assert forall|later: int| index < later < staged.len() implies (#[trigger] staged[later]).0 != key by {
                        if later < last {
                            assert(earlier[later].0 != key);
                        }
                    }
                }
            }
            if forall|index: int| 0 <= index < staged.len() ==> (#[trigger] staged[index]).0 != key {
                assert forall|index: int| 0 <= index < earlier.len() implies (#[trigger] earlier[index]).0 != key by {
                    assert(staged[index].0 != key);
                }
            }
        }
    }
}

/// A checkpoint commits what was staged for its resource together with the cursor, counts it,
/// and changes nothing else: no other writer, no reader, no source and no line of the log.
pub proof fn law_checkpoint_changes_one_writer(state: StoreView, resource: Seq<char>, cursor: Seq<char>, key: Seq<char>)
    requires
        state.writers.dom().contains(resource),
        state.writers[resource].written + state.writers[resource].staged.len() <= u64::MAX,
    ensures
        ({
            let before = state.writers[resource];
            let after = checkpointed(state, resource, cursor).writers[resource];
            &&& checkpointed(state, resource, cursor).writers.dom() == state.writers.dom()
            &&& forall|other: Seq<char>| #[trigger]
                state.writers.dom().contains(other) && other != resource ==> checkpointed(
                    state,
                    resource,
                    cursor,
                ).writers[other] == state.writers[other]
            &&& after.cursor == cursor
            &&& after.written == before.written + before.staged.len()
            &&& after.staged.len() == 0 && after.staged_bytes == 0
            &&& forall|index: int| #[trigger]
                is_last_staged(before.staged, key, index) ==> after.items.dom().contains(key) && after.items[key]
                    == before.staged[index].1
            &&& (forall|index: int| 0 <= index < before.staged.len() ==> (#[trigger] before.staged[index]).0 != key)
                ==> item_at(after.items, key) == item_at(before.items, key)
            &&& checkpointed(state, resource, cursor) == (StoreView {
                writers: checkpointed(state, resource, cursor).writers,
                ..state
            })
        }),
{
    let before = state.writers[resource];
    law_staged_items_are_committed(before.items, before.staged, key);
    assert(checkpointed(state, resource, cursor).writers.dom() =~= state.writers.dom());
}

/// A checkpoint is accepted exactly of a running attempt whose action may write the resource,
/// with a cursor that fits, and none where the action reads resources.
pub proof fn law_checkpoints_are_accepted(setup: Setup, state: StoreView, resource: Seq<char>, cursor: Seq<char>)
    ensures
        checkpoint_fault(setup, state, resource, cursor) is None <==> {
            &&& setup.action().permits(resource, Capability::Write)
            &&& byte_count(cursor) <= MAX_CURSOR_BYTES
            &&& state.operation matches Some(operation) && operation.phase == Phase::Running
            &&& state.readers.dom().len() == 0 || cursor.len() == 0
        },
{
}

/// The bytes of the JSON texts of the items between two places.
pub open spec fn bytes_between(items: Seq<Json>, start: int, end: int) -> int
    decreases end - start,
{
    if start >= end {
        0
    } else {
        bytes_between(items, start, end - 1) + byte_count(json_text(items[end - 1]@))
    }
}

/// A page is as long as it can be: it ends at the last item, or holds as many items as a page
/// may hold, or the next item does not fit its bytes; and all that it holds fits.
pub proof fn law_pages_are_full(items: Seq<Json>, start: int, index: int)
    requires
        0 <= start <= index <= items.len(),
        index - start <= MAX_ITEMS,
        bytes_between(items, start, index) <= MAX_BATCH_BYTES,
    ensures
        ({
            let end = page_end(items, start, index, bytes_between(items, start, index));
            &&& index <= end <= items.len()
            &&& end - start <= MAX_ITEMS
            &&& bytes_between(items, start, end) <= MAX_BATCH_BYTES
            &&& end == items.len() || end - start == MAX_ITEMS || bytes_between(items, start, end + 1) > MAX_BATCH_BYTES
        }),
    decreases items.len() - index,
{
    if index < items.len() {
        assert(bytes_between(items, start, index + 1) == bytes_between(items, start, index) + byte_count(
            json_text(items[index]@),
        ));
        if !(index - start >= MAX_ITEMS || bytes_between(items, start, index) + byte_count(json_text(items[index]@))
            > MAX_BATCH_BYTES) {
            law_pages_are_full(items, start, index + 1);
        }
    }
}

/// An attempt starts over with nothing staged and no page handed out; what was committed and
/// acknowledged stays.
pub proof fn law_new_attempts_keep_what_is_committed(
    writers: Map<Seq<char>, WriterView>,
    readers: Map<Seq<char>, ReadState>,
    name: Seq<char>,
)
    ensures
        unstaged(writers).dom() == writers.dom(),
        writers.dom().contains(name) ==> ({
            let writer = unstaged(writers)[name];
            &&& writer.items == writers[name].items
            &&& writer.cursor == writers[name].cursor
            &&& writer.written == writers[name].written
            &&& writer.staged.len() == 0 && writer.staged_bytes == 0
        }),
        rewound(readers).dom() == readers.dom(),
        readers.dom().contains(name) ==> rewound(readers)[name].pending is None && rewound(readers)[name].acknowledged
            == readers[name].acknowledged && rewound(readers)[name].drained == readers[name].drained,
{
    assert(unstaged(writers).dom() =~= writers.dom());
    assert(rewound(readers).dom() =~= readers.dom());
}

/// A value mentions a known source where its text stands in it, in whatever depth; a value
/// without texts mentions none, and an unknown source is never mentioned.
pub proof fn law_mentions(value: JsonValue, sources: Set<Seq<char>>, id: Seq<char>)
    ensures
        value matches JsonValue::Text(text) ==> (mentions(value, sources, id) <==> text == id && sources.contains(id)),
        value matches JsonValue::Array(items) ==> (mentions(value, sources, id) <==> exists|i: int|
            0 <= i < items.len() && mentions(#[trigger] items[i], sources, id)),
        value matches JsonValue::Object(members) ==> (mentions(value, sources, id) <==> exists|i: int|
            0 <= i < members.len() && mentions((#[trigger] members[i]).1, sources, id)),
        value is Null || value is Bool || value is Number ==> !mentions(value, sources, id),
        mentions(value, sources, id) ==> sources.contains(id),
    decreases value,
{
    match value {
        JsonValue::Array(items) => {
            if mentions(value, sources, id) {
                let i = choose|i: int| 0 <= i < items.len() && mentions(#[trigger] items[i], sources, id);
                law_mentions(items[i], sources, id);
            }
        },
        JsonValue::Object(members) => {
            if mentions(value, sources, id) {
                let i = choose|i: int| 0 <= i < members.len() && mentions((#[trigger] members[i]).1, sources, id);
                law_mentions(members[i].1, sources, id);
            }
        },
        _ => {},
    }
}

/// A source may be referred to from the property of the resource under which it was sealed,
/// and from anywhere where it was not sealed but lent.
pub proof fn law_references(state: StoreView, resource: Seq<char>, pointer: Seq<char>, id: Seq<char>)
    ensures
        reference_fault(state, resource, pointer, id) is None <==> if state.bindings.dom().contains(id) {
            state.bindings[id].0 == resource && pointer == "/properties/"@ + state.bindings[id].1
        } else {
            state.lent.contains(id)
        },
{
}

/// A line of the local log says its level and the message, where it holds no token and fits.
pub proof fn law_short_lines_are_kept(setup: Setup, level: LogLevel, message: Seq<char>)
    requires
        forall|i: int|
            0 <= i < setup.secrets().len() ==> !occurs(level.text_spec() + ": "@ + message, #[trigger] setup.secrets()[i]),
        byte_count(level.text_spec() + ": "@ + message) <= MAX_LOG_LINE_BYTES,
    ensures
        local_line(setup, level, message) == level.text_spec() + ": "@ + message,
{
    let line = level.text_spec() + ": "@ + message;
    law_text_without_tokens_is_kept(line, setup.secrets());
    law_truncation(line, MAX_LOG_LINE_BYTES as int);
}

/// A write is accepted exactly where each of its items is: its sources are as they are declared,
/// and each of them may be referred to.
pub proof fn law_writes_are_accepted_item_by_item(
    schema: JsonValue,
    staged: Seq<(Seq<char>, JsonValue)>,
    resource: Seq<char>,
    state: StoreView,
    index: int,
)
    requires
        0 <= index <= staged.len(),
    ensures
        write_fault(schema, staged, resource, state, index) is None <==> forall|i: int|
            index <= i < staged.len() ==> sources_fault(schema, (#[trigger] staged[i]).1, state.sources) is None
                && item_fault(schema, staged[i].1, ""@, resource, state) is None,
    decreases staged.len() - index,
{
    if index < staged.len() {
        law_writes_are_accepted_item_by_item(schema, staged, resource, state, index + 1);
    }
}

/// An item is refused for a source exactly where a text in it stands where a source is declared
/// and may not be referred to there, or where something else than a text stands there.
pub proof fn law_refused_sources(
    schema: JsonValue,
    value: JsonValue,
    pointer: Seq<char>,
    resource: Seq<char>,
    state: StoreView,
)
    ensures
        value is Null ==> item_fault(schema, value, pointer, resource, state) is None,
        is_source_schema(schema) && !(value is Null) && !(value is Text) ==> item_fault(
            schema,
            value,
            pointer,
            resource,
            state,
        ) == Some(ItemFault::NotText),
        is_source_schema(schema) ==> (value matches JsonValue::Text(id) ==> item_fault(
            schema,
            value,
            pointer,
            resource,
            state,
        ) == reference_fault(state, resource, pointer, id)),
        !is_source_schema(schema) ==> (value matches JsonValue::Array(items) ==> (item_fault(
            schema,
            value,
            pointer,
            resource,
            state,
        ) is None <==> (member(schema, "items"@) matches Some(child) ==> forall|i: int|
            0 <= i < items.len() ==> item_fault(child, #[trigger] items[i], pointer + "/items"@, resource, state) is None))),
{
    if let JsonValue::Array(items) = value {
        if let Some(child) = member(schema, "items"@) {
            lemma_elements_accepted(child, items, pointer + "/items"@, resource, state);
        }
    }
}

proof fn lemma_elements_accepted(
    schema: JsonValue,
    items: Seq<JsonValue>,
    pointer: Seq<char>,
    resource: Seq<char>,
    state: StoreView,
)
    ensures
        item_elements_fault(schema, items, pointer, resource, state) is None <==> forall|i: int|
            0 <= i < items.len() ==> item_fault(schema, #[trigger] items[i], pointer, resource, state) is None,
    decreases items.len(),
{
    if items.len() > 0 {
        let earlier = items.drop_last();
        lemma_elements_accepted(schema, earlier, pointer, resource, state);
        assert forall|i: int| 0 <= i < earlier.len() implies #[trigger] earlier[i] == items[i] by {}
        if item_elements_fault(schema, items, pointer, resource, state) is None {
            assert forall|i: int| 0 <= i < items.len() implies item_fault(
                schema,
                #[trigger] items[i],
                pointer,
                resource,
                state,
            ) is None by {
                if i < earlier.len() {
                    assert(earlier[i] == items[i]);
                }
            }
        }
    }
}

/// The members of an item are accepted exactly where each of them is, read by the schema of its
/// property, or by that of further properties where it is not declared.
pub proof fn law_members_are_accepted_one_by_one(
    schema: JsonValue,
    members: Seq<(Seq<char>, JsonValue)>,
    pointer: Seq<char>,
    resource: Seq<char>,
    state: StoreView,
)
    ensures
        item_members_fault(schema, members, pointer, resource, state) is None <==> forall|i: int|
            0 <= i < members.len() ==> #[trigger] is_accepted(schema, members[i], pointer, resource, state),
    decreases members.len(),
{
    if members.len() > 0 {
        let earlier = members.drop_last();
        law_members_are_accepted_one_by_one(schema, earlier, pointer, resource, state);
        assert forall|i: int| 0 <= i < earlier.len() implies #[trigger] earlier[i] == members[i] by {}
        assert(members.last() == members[members.len() - 1]);
        if item_members_fault(schema, members, pointer, resource, state) is None {
            assert forall|i: int| 0 <= i < members.len() implies #[trigger] is_accepted(
                schema,
                members[i],
                pointer,
                resource,
                state,
            ) by {
                if i < earlier.len() {
                    assert(is_accepted(schema, earlier[i], pointer, resource, state));
                }
            }
        } else if forall|i: int|
            0 <= i < members.len() ==> #[trigger] is_accepted(schema, members[i], pointer, resource, state) {
            assert forall|i: int| 0 <= i < earlier.len() implies #[trigger] is_accepted(
                schema,
                earlier[i],
                pointer,
                resource,
                state,
            ) by {
                assert(is_accepted(schema, members[i], pointer, resource, state));
            }
            assert(is_accepted(schema, members[members.len() - 1], pointer, resource, state));
        }
    }
}

/// A member of an item is accepted by the schema that is declared for it.
pub open spec fn is_accepted(
    schema: JsonValue,
    entry: (Seq<char>, JsonValue),
    pointer: Seq<char>,
    resource: Seq<char>,
    state: StoreView,
) -> bool {
    match declared_schema(schema, entry.0) {
        Some(child) => item_fault(child, entry.1, pointer + "/properties/"@ + escaped(entry.0), resource, state) is None,
        None => match member(schema, "additionalProperties"@) {
            Some(JsonValue::Object(inner)) => item_fault(
                JsonValue::Object(inner),
                entry.1,
                pointer + "/additionalProperties"@,
                resource,
                state,
            ) is None,
            _ => true,
        },
    }
}

/// In a pointer the name of a property is written character by character: a tilde as `~0`,
/// a slash as `~1`, and any other character as it is.
pub proof fn law_names_in_pointers(first: char, rest: Seq<char>)
    ensures
        escaped(Seq::empty()).len() == 0,
        escaped(seq![first] + rest) == (if first == '~' {
            seq!['~', '0']
        } else if first == '/' {
            seq!['~', '1']
        } else {
            seq![first]
        }) + escaped(rest),
{
    reveal_strlit("~");
    reveal_strlit("~0");
    reveal_strlit("/");
    reveal_strlit("~1");
    assert("~"@ =~= seq!['~']);
    assert("~0"@ =~= seq!['~', '0']);
    assert("/"@ =~= seq!['/']);
    assert("~1"@ =~= seq!['~', '1']);
    let inner = replaced(rest, seq!['~'], seq!['~', '0']);
    law_replaced_one_by_one(first, rest, '~', seq!['~', '0']);
    law_replaced_one_by_one(first, inner, '/', seq!['~', '1']);
    law_replaced_one_by_one('0', inner, '/', seq!['~', '1']);
    law_replaced_one_by_one('~', seq!['0'] + inner, '/', seq!['~', '1']);
    assert(replaced(Seq::<char>::empty(), seq!['~'], seq!['~', '0']) =~= Seq::empty());
    if first == '~' {
        assert(seq!['~', '0'] + inner =~= seq!['~'] + (seq!['0'] + inner));
        assert(seq!['~'] + (seq!['0'] + escaped(rest)) =~= seq!['~', '0'] + escaped(rest));
    }
}

/// The items of a page are those of the fixture from its start on, in their order, and no
/// two items of a fixture have the same seed.
pub proof fn law_pages_hold_their_items(
    page: Seq<Item>,
    other: Seq<Item>,
    resource: Seq<char>,
    items: Seq<Json>,
    start: int,
    middle: int,
    end: int,
    first: int,
    second: int,
)
    requires
        0 <= start <= middle <= end <= items.len(),
        is_page(page, resource, items, start, middle),
        is_page(other, resource, items, middle, end),
        0 <= first < page.len(),
        0 <= second < other.len(),
    ensures
        page.len() == middle - start,
        page[first].value@ == json_text(items[start + first]@),
        page[first].seed@ != other[second].seed@,
        resource.len() + 8 <= page[first].seed@.len(),
{
    reveal_strlit("local-");
    reveal_strlit("-");
    assert("local-"@.len() == 6 && "-"@.len() == 1);
    let head = "local-"@ + resource + "-"@;
    let left = decimal((start + first + 1) as nat);
    let right = decimal((middle + second + 1) as nat);
    law_decimal_digits((start + first + 1) as nat, (middle + second + 1) as nat);
    assert(page[first].seed@ == head + left);
    assert(other[second].seed@ == head + right);
    if page[first].seed@ == other[second].seed@ {
        assert(left =~= page[first].seed@.skip(head.len() as int));
        assert(right =~= other[second].seed@.skip(head.len() as int));
    }
}

/// An attempt is handed the cursor of each of its writers, in the order of their names, and
/// none where its action reads; and each source that its parameters refer to, with what is
/// known of it.
pub proof fn law_attempts_are_handed_state_and_sources(
    store: Store,
    cursors: Seq<Cursor>,
    sources: Seq<Source>,
    index: int,
    id: Seq<char>,
)
    requires
        store.lists_cursors(cursors),
        store.lists_sources(sources),
    ensures
        store.readers.names().len() > 0 ==> cursors.len() == 0,
        store.readers.names().len() == 0 ==> cursors.len() == store.writers.names().len(),
        store.readers.names().len() == 0 && 0 <= index < cursors.len() ==> cursors[index].name@
            == store.writers.names()[index] && cursors[index].value@ == store@.writers[cursors[index].name@].cursor,
        lends(sources, id) <==> mentions(store.setup.inputs.parameters@, store@.sources.dom(), id),
        0 <= index < sources.len() ==> {
            let held = store@.sources[sources[index].id@];
            &&& sources[index].filename@ == held.filename
            &&& sources[index].media_type@ == held.media_type
            &&& sources[index].size == held.bytes.len() as u64
        },
{
    let wanted = parameter_sources(store.setup, store@.sources.dom());
    assert(wanted.contains(id) == mentions(store.setup.inputs.parameters@, store@.sources.dom(), id));
    if lends(sources, id) {
        let at = choose|at: int| 0 <= at < sources.len() && (#[trigger] sources[at]).id@ == id;
        assert(wanted.contains(sources[at].id@));
    }
}

} // verus!

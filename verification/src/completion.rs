//! The start and the end of a local run: what it commits, reports and exports.

use vstd::prelude::*;
use vstd::string::*;

use crate::host::HostError;
use crate::identity::{digest, digest_of};
use crate::inputs::{source_views, LocalSource};
use crate::json::{
    find_member, json_text, law_put_member_changes_one, lemma_array, lemma_object, lookup, member, members_of,
    put_member, values_of, with_member, write_json, Json, JsonValue, Number, NumberView,
};
use crate::logs::{LogBudget, MAX_LOG_LINE_BYTES};
use crate::manifest::{has_capability, Action, Capability};
use crate::redact::redacted_value;
use crate::store::{
    lend_sources, mentions, parameter_sources, unstaged, Inputs, OperationView, Phase, ReadState, Report,
    ReportView, Setup, Store, StoreView, Writer, WriterView,
};
use crate::table::Table;
use crate::text::{
    byte_count, byte_len, chars_of, fitting, in_small_letters, law_truncation, lemma_pieces_nonempty, pieces,
    same_text, split_text, text_between, truncate, write_small,
};
use crate::tool::{copy_values, unsigned};

verus! {

/// The most keys that a report lists.
pub const MAX_SUMMARY_KEYS: usize = 100;

/// The longest list of keys that a report holds, in bytes of its JSON text.
pub const MAX_SUMMARY_BYTES: usize = 64 * 1024;

/// The keys of the first `count` writers, in the order of resources and keys.
pub open spec fn written_keys(writers: Seq<(String, Writer)>, count: int) -> Seq<(Seq<char>, Seq<char>)>
    decreases count,
{
    if count <= 0 {
        Seq::empty()
    } else {
        written_keys(writers, count - 1) + writer_keys(writers[count - 1])
    }
}

/// The keys of one writer, in their order.
pub open spec fn writer_keys(entry: (String, Writer)) -> Seq<(Seq<char>, Seq<char>)> {
    entry.1.items.names().map_values(|key: Seq<char>| (entry.0@, key))
}

/// A list of keys as JSON.
pub open spec fn keys_value(keys: Seq<(Seq<char>, Seq<char>)>) -> JsonValue {
    JsonValue::Array(keys.map_values(|key: (Seq<char>, Seq<char>)| key_value(key)))
}

/// A key as JSON.
pub open spec fn key_value(key: (Seq<char>, Seq<char>)) -> JsonValue {
    JsonValue::Object(seq![("extensionResourceId"@, JsonValue::Text(key.0)), ("key"@, JsonValue::Text(key.1))])
}

/// The keys that a report lists, and whether they were left out: where there are too
/// many, or where their JSON text is too long.
pub open spec fn reported_keys(writers: Seq<(String, Writer)>) -> (Seq<(Seq<char>, Seq<char>)>, bool) {
    let keys = written_keys(writers, writers.len() as int);
    if keys.len() > MAX_SUMMARY_KEYS || byte_count(json_text(keys_value(keys))) > MAX_SUMMARY_BYTES {
        (Seq::empty(), true)
    } else {
        (keys, false)
    }
}

/// The texts of pairs of strings.
pub open spec fn key_views(keys: Seq<(String, String)>) -> Seq<(Seq<char>, Seq<char>)> {
    keys.map_values(|key: (String, String)| (key.0@, key.1@))
}

fn keys_json(keys: &Vec<(String, String)>) -> (json: Json)
    ensures
        json@ == keys_value(key_views(keys@)),
{
    let mut items: Vec<Json> = Vec::new();
    let mut index: usize = 0;
    while index < keys.len()
        invariant
            index <= keys.len(),
            items@.len() == index,
            forall|i: int| 0 <= i < index ==> (#[trigger] items@[i])@ == key_value(key_views(keys@)[i]),
        decreases keys.len() - index,
    {
        let mut members: Vec<(String, Json)> = Vec::new();
        members.push(("extensionResourceId".to_owned(), Json::Text(keys[index].0.clone())));
        members.push(("key".to_owned(), Json::Text(keys[index].1.clone())));
        proof {
            lemma_object(members);
            assert(members_of(members@) =~= key_value(key_views(keys@)[index as int])->Object_0);
        }
        items.push(Json::Object(members));
        index += 1;
    }
    proof {
        lemma_array(items);
        assert(values_of(items@) =~= keys_value(key_views(keys@))->Array_0);
    }
    Json::Array(items)
}

/// Keeps keys whose JSON text takes `length` bytes within the limits of a report, or
/// leaves them out.
pub fn bounded_keys(keys: Vec<(String, String)>, length: usize) -> (listed: (Vec<(String, String)>, bool))
    ensures
        if keys@.len() > MAX_SUMMARY_KEYS || length > MAX_SUMMARY_BYTES {
            listed.0@.len() == 0 && listed.1
        } else {
            listed == (keys, false)
        },
{
    if keys.len() > MAX_SUMMARY_KEYS || length > MAX_SUMMARY_BYTES {
        (Vec::new(), true)
    } else {
        (keys, false)
    }
}

/// Lists the keys of what was written, within the limits of a report.
pub fn written_item_keys(writers: &Table<Writer>) -> (listed: (Vec<(String, String)>, bool))
    ensures
        (key_views(listed.0@), listed.1) == reported_keys(writers.entries@),
{
    let ghost all = writers.entries@;
    let mut keys: Vec<(String, String)> = Vec::new();
    let mut index: usize = 0;
    assert(key_views(keys@) =~= Seq::empty());
    while index < writers.entries.len()
        invariant
            index <= writers.entries.len(),
            all == writers.entries@,
            key_views(keys@) == written_keys(all, index as int),
        decreases writers.entries.len() - index,
    {
        let entry = &writers.entries[index];
        let ghost own = writer_keys(all[index as int]);
        let ghost before = key_views(keys@);
        let mut at: usize = 0;
        assert(before + own.take(0) =~= before);
        while at < entry.1.items.entries.len()
            invariant
                at <= entry.1.items.entries.len(),
                own == writer_keys(*entry),
                key_views(keys@) == before + own.take(at as int),
            decreases entry.1.items.entries.len() - at,
        {
            let ghost earlier = keys@;
            let key = &entry.1.items.entries[at].0;
            keys.push((entry.0.clone(), key.clone()));
            proof {
                assert(own[at as int] == (entry.0@, key@));
                assert(own.take(at + 1) =~= own.take(at as int).push(own[at as int]));
                assert(key_views(keys@) =~= key_views(earlier).push(own[at as int]));
                assert(before + own.take(at + 1) =~= (before + own.take(at as int)).push(own[at as int]));
            }
            at += 1;
        }
        assert(own.take(own.len() as int) =~= own);
        index += 1;
    }
    assert(key_views(keys@).len() == keys@.len());
    let length = byte_len(write_json(&keys_json(&keys)).as_str());
    let listed = bounded_keys(keys, length);
    assert(listed.0@.len() == 0 ==> key_views(listed.0@) =~= Seq::empty());
    listed
}

/// A failure as it is kept: without the tokens, its message cut to the line limit.
pub open spec fn kept_failure(failure: JsonValue) -> JsonValue {
    match failure {
        JsonValue::Object(members) => match lookup(members, "message"@) {
            Some(JsonValue::Text(message)) => JsonValue::Object(
                with_member(members, "message"@, JsonValue::Text(fitting(message, MAX_LOG_LINE_BYTES as int))),
            ),
            _ => failure,
        },
        _ => failure,
    }
}

fn cut_message(failure: Json) -> (kept: Json)
    ensures
        kept@ == kept_failure(failure@),
{
    match failure {
        Json::Object(members) => {
            proof {
                lemma_object(members);
            }
            let mut output = members;
            let message = match find_member(&output, "message") {
                Some(index) => match &output[index].1 {
                    Json::Text(message) => Some(message.clone()),
                    _ => None,
                },
                None => None,
            };
            if let Some(mut message) = message {
                truncate(&mut message, MAX_LOG_LINE_BYTES);
                put_member(&mut output, "message".to_owned(), Json::Text(message));
            }
            proof {
                lemma_object(output);
            }
            Json::Object(output)
        },
        other => other,
    }
}

/// The report on a run.
pub open spec fn is_report(report: ReportView, store: Store) -> bool {
    let (keys, truncated) = reported_keys(store.writers.entries@);
    &&& report.resources == store.writers.entries@.map_values(
        |entry: (String, Writer)| (entry.0@, entry.1.written),
    )
    &&& report.reads == store.readers.entries@.map_values(
        |entry: (String, ReadState)|
            (
                entry.0@,
                store.setup.inputs.readers@[entry.0@]@.len() as u64,
                entry.1.acknowledged as u64,
            ),
    )
    &&& report.keys == keys && report.truncated == truncated
    &&& report.source_count == store.source_reads.entries@.len()
}

impl Store {
    fn report(&self) -> (report: Report)
        requires
            self.wf(),
        ensures
            is_report(report@, *self),
    {
        let mut resources: Vec<(String, u64)> = Vec::new();
        let mut index: usize = 0;
        while index < self.writers.entries.len()
            invariant
                index <= self.writers.entries.len(),
                resources@.len() == index,
                forall|i: int|
                    0 <= i < index ==> (#[trigger] resources@[i]).0@ == self.writers.entries@[i].0@ && resources@[i].1
                        == self.writers.entries@[i].1.written,
            decreases self.writers.entries.len() - index,
        {
            resources.push((self.writers.entries[index].0.clone(), self.writers.entries[index].1.written));
            index += 1;
        }
        let mut reads: Vec<(String, u64, u64)> = Vec::new();
        let mut place: usize = 0;
        while place < self.readers.entries.len()
            invariant
                place <= self.readers.entries.len(),
                self.wf(),
                reads@.len() == place,
                forall|i: int|
                    0 <= i < place ==> (#[trigger] reads@[i]).0@ == self.readers.entries@[i].0@ && reads@[i].1
                        == self.setup.inputs.readers@[self.readers.entries@[i].0@]@.len() as u64 && reads@[i].2
                        == self.readers.entries@[i].1.acknowledged as u64,
            decreases self.readers.entries.len() - place,
        {
            let entry = &self.readers.entries[place];
            proof {
                self.readers.lemma_entry(place as int);
                assert(self.setup.inputs.readers@.dom().contains(entry.0@));
            }
            let total: u64 = match self.setup.inputs.readers.get(entry.0.as_str()) {
                Some(items) => items.len() as u64,
                None => 0,
            };
            reads.push((entry.0.clone(), total, entry.1.acknowledged as u64));
            place += 1;
        }
        let (keys, truncated) = written_item_keys(&self.writers);
        let report = Report { resources, reads, keys, truncated, source_count: self.source_reads.entries.len() as u64 };
        proof {
            assert(report@.resources =~= self.writers.entries@.map_values(
                |entry: (String, Writer)| (entry.0@, entry.1.written),
            ));
            assert(report@.reads =~= self.readers.entries@.map_values(
                |entry: (String, ReadState)|
                    (
                        entry.0@,
                        self.setup.inputs.readers@[entry.0@]@.len() as u64,
                        entry.1.acknowledged as u64,
                    ),
            ));
            assert(report@.keys =~= key_views(keys@));
        }
        report
    }

    /// Begins to end the operation: what is staged is dropped, and the failure that is
    /// to be kept comes back without the tokens.
    pub fn begin_completion(&mut self, failure: Option<Json>, time: &str) -> (begun: Result<Option<Json>, HostError>)
        requires
            old(self).wf(),
        ensures
            final(self).wf(),
            final(self).setup == old(self).setup,
            ({
                let state = old(self)@;
                let clean = match failure {
                    Some(failure) => redacted_value(failure@, old(self).setup.secrets()),
                    None => None,
                };
                if failure is Some && clean is None {
                    begun == Err::<Option<Json>, _>(HostError::Invalid("redacted item property names collide"))
                        && final(self)@ == state
                } else if !state.active() {
                    begun == Err::<Option<Json>, _>(HostError::Stopped) && final(self)@ == state
                } else {
                    &&& begun matches Ok(kept) && match failure {
                        None => kept is None,
                        Some(_) => kept matches Some(kept) && kept@ == kept_failure(clean->0),
                    }
                    &&& final(self)@ == (StoreView {
                        writers: unstaged(state.writers),
                        operation: Some(
                            OperationView {
                                end_time: Some(time@),
                                update_time: time@,
                                ..state.operation->0
                            },
                        ),
                        ..state
                    })
                }
            }),
    {
        let kept = match failure {
            None => None,
            Some(failure) => match self.setup.redact_value(&failure) {
                Ok(clean) => Some(cut_message(clean)),
                Err(error) => return Err(error),
            },
        };
        match self.finish() {
            Ok(_) => {},
            Err(error) => return Err(error),
        }
        if let Some(mut operation) = self.operation.take() {
            operation.end_time = Some(time.to_owned());
            operation.update_time = time.to_owned();
            self.operation = Some(operation);
        }
        Ok(kept)
    }

    /// Ends the operation: as failed where a failure is kept, otherwise as succeeded
    /// with the commit of its results. Its report is added.
    pub fn finish_completion(&mut self, outcome: Result<String, Json>)
        requires
            old(self).wf(),
            old(self).operation is Some,
        ensures
            final(self).wf(),
            final(self).setup == old(self).setup,
            final(self)@ == (StoreView { operation: final(self)@.operation, ..old(self)@ }),
            final(self)@.operation matches Some(operation) && {
                &&& operation == (OperationView {
                    phase: match outcome {
                        Ok(_) => Phase::Succeeded,
                        Err(_) => Phase::Failed,
                    },
                    result_commit: match outcome {
                        Ok(commit) => Some(commit@),
                        Err(_) => old(self)@.operation->0.result_commit,
                    },
                    failure: match outcome {
                        Ok(_) => old(self)@.operation->0.failure,
                        Err(failure) => Some(failure@),
                    },
                    report: operation.report,
                    ..old(self)@.operation->0
                })
                &&& operation.report matches Some(report) && is_report(report, *old(self))
            },
    {
        let report = self.report();
        if let Some(mut operation) = self.operation.take() {
            match outcome {
                Ok(commit) => {
                    operation.phase = Phase::Succeeded;
                    operation.result_commit = Some(commit);
                },
                Err(failure) => {
                    operation.phase = Phase::Failed;
                    operation.failure = Some(failure);
                },
            }
            operation.report = Some(report);
            self.operation = Some(operation);
        }
    }
}

/// The readers of an action without items yet.
pub open spec fn is_reader_table(readers: Table<Vec<Json>>, action: Action) -> bool {
    &&& readers.wf()
    &&& forall|name: Seq<char>| #[trigger] readers@.dom().contains(name) <==> action.permits(name, Capability::Read)
    &&& forall|name: Seq<char>| #[trigger] readers@.dom().contains(name) ==> readers@[name]@.len() == 0
}

/// Returns a place for the items of each resource that an action reads.
pub fn reader_names(action: &Action) -> (readers: Table<Vec<Json>>)
    requires
        action.resources.wf(),
    ensures
        is_reader_table(readers, *action),
{
    let mut readers: Table<Vec<Json>> = Table::new();
    let mut index: usize = 0;
    while index < action.resources.entries.len()
        invariant
            index <= action.resources.entries.len(),
            action.resources.wf(),
            readers.wf(),
            forall|name: Seq<char>| #[trigger]
                readers@.dom().contains(name) <==> exists|i: int|
                    0 <= i < index && (#[trigger] action.resources.entries@[i]).0@ == name
                        && action.resources.entries@[i].1@.contains(Capability::Read),
            forall|name: Seq<char>| #[trigger] readers@.dom().contains(name) ==> readers@[name]@.len() == 0,
        decreases action.resources.entries.len() - index,
    {
        let entry = &action.resources.entries[index];
        if has_capability(&entry.1, Capability::Read) {
            readers.insert(entry.0.clone(), Vec::new());
        }
        index += 1;
    }
    proof {
        lemma_permitted(*action, Capability::Read);
    }
    readers
}

/// What an action permits is what some entry of it lists.
proof fn lemma_permitted(action: Action, capability: Capability)
    requires
        action.resources.wf(),
    ensures
        forall|name: Seq<char>| #[trigger]
            action.permits(name, capability) <==> exists|i: int|
                0 <= i < action.resources.entries@.len() && (#[trigger] action.resources.entries@[i]).0@ == name
                    && action.resources.entries@[i].1@.contains(capability),
{
    assert forall|name: Seq<char>| #[trigger] action.permits(name, capability) <==> exists|i: int|
        0 <= i < action.resources.entries@.len() && (#[trigger] action.resources.entries@[i]).0@ == name
            && action.resources.entries@[i].1@.contains(capability) by {
        if action.permits(name, capability) {
            let at = action.resources.names().index_of(name);
            assert(action.resources.names()[at] == name);
            action.resources.lemma_entry(at);
            assert(action.resources.entries@[at].0@ == name);
        }
        if exists|i: int|
            0 <= i < action.resources.entries@.len() && (#[trigger] action.resources.entries@[i]).0@ == name
                && action.resources.entries@[i].1@.contains(capability) {
            let i = choose|i: int|
                0 <= i < action.resources.entries@.len() && (#[trigger] action.resources.entries@[i]).0@ == name
                    && action.resources.entries@[i].1@.contains(capability);
            action.resources.lemma_entry(i);
        }
    }
}

/// What a run starts with: readers at their beginning, empty writers, the supplied
/// sources, of which those that the parameters mention are lent.
pub open spec fn is_fresh(state: StoreView, setup: Setup, sources: Table<LocalSource>) -> bool {
    &&& state.operation is None
    &&& state.readers.dom() == setup.inputs.readers@.dom()
    &&& forall|name: Seq<char>| #[trigger]
        state.readers.dom().contains(name) ==> state.readers[name] == (ReadState {
            acknowledged: 0,
            pending: None,
            drained: false,
        })
    &&& forall|name: Seq<char>| #[trigger]
        state.writers.dom().contains(name) <==> setup.action().permits(name, Capability::Write)
    &&& forall|name: Seq<char>| #[trigger]
        state.writers.dom().contains(name) ==> state.writers[name] == (WriterView {
            items: Map::empty(),
            written: 0,
            cursor: ""@,
            staged: Seq::empty(),
            staged_bytes: 0,
        })
    &&& state.sources == source_views(sources)
    &&& state.lent == parameter_sources(setup, state.sources.dom())
    &&& state.produced == Set::<Seq<char>>::empty()
    &&& state.bindings == Map::<Seq<char>, (Seq<char>, Seq<char>)>::empty()
    &&& state.logs == Seq::<Seq<char>>::empty()
    &&& state.budget == (LogBudget { bytes: 0, dropped: false })
    &&& state.source_reads.dom() == Set::<Seq<char>>::empty()
}

impl Store {
    /// Starts a run.
    pub fn new(setup: Setup, sources: Table<LocalSource>) -> (store: Store)
        requires
            setup.wf(),
            sources.wf(),
        ensures
            store.wf(),
            store.setup == setup,
            is_fresh(store@, setup, sources),
    {
        let mut readers: Table<ReadState> = Table::new();
        let mut index: usize = 0;
        while index < setup.inputs.readers.entries.len()
            invariant
                index <= setup.inputs.readers.entries.len(),
                readers.wf(),
                forall|name: Seq<char>| #[trigger]
                    readers@.dom().contains(name) <==> exists|i: int|
                        0 <= i < index && (#[trigger] setup.inputs.readers.entries@[i]).0@ == name,
                forall|name: Seq<char>| #[trigger]
                    readers@.dom().contains(name) ==> readers@[name] == (ReadState {
                        acknowledged: 0,
                        pending: None,
                        drained: false,
                    }),
            decreases setup.inputs.readers.entries.len() - index,
        {
            readers.insert(
                setup.inputs.readers.entries[index].0.clone(),
                ReadState { acknowledged: 0, pending: None, drained: false },
            );
            index += 1;
        }
        proof {
            assert forall|name: Seq<char>| readers@.dom().contains(name) <==> setup.inputs.readers@.dom().contains(
                name,
            ) by {
                if setup.inputs.readers@.dom().contains(name) {
                    let at = setup.inputs.readers.names().index_of(name);
                    assert(setup.inputs.readers.names()[at] == name);
                    assert(setup.inputs.readers.entries@[at].0@ == name);
                }
                if readers@.dom().contains(name) {
                    let i = choose|i: int|
                        0 <= i < setup.inputs.readers.entries@.len() && (#[trigger] setup.inputs.readers.entries@[i]).0@
                            == name;
                    setup.inputs.readers.lemma_entry(i);
                }
            }
            assert(readers@.dom() =~= setup.inputs.readers@.dom());
        }
        let mut writers: Table<Writer> = Table::new();
        let action = setup.find_action();
        let mut place: usize = 0;
        while place < action.resources.entries.len()
            invariant
                place <= action.resources.entries.len(),
                action.resources.wf(),
                writers.wf(),
                forall|name: Seq<char>| #[trigger]
                    writers@.dom().contains(name) <==> exists|i: int|
                        0 <= i < place && (#[trigger] action.resources.entries@[i]).0@ == name
                            && action.resources.entries@[i].1@.contains(Capability::Write),
                forall|name: Seq<char>| #[trigger]
                    writers@.dom().contains(name) ==> writers@[name].wf() && writers@[name]@ == (WriterView {
                        items: Map::empty(),
                        written: 0,
                        cursor: ""@,
                        staged: Seq::empty(),
                        staged_bytes: 0,
                    }),
            decreases action.resources.entries.len() - place,
        {
            let entry = &action.resources.entries[place];
            if has_capability(&entry.1, Capability::Write) {
                writers.insert(entry.0.clone(), Writer::new());
            }
            place += 1;
        }
        proof {
            lemma_permitted(*action, Capability::Write);
        }
        let mut lent: Table<()> = Table::new();
        let mut added: Vec<String> = Vec::new();
        lend_sources(&setup.inputs.parameters, &sources, &mut lent, &mut added);
        let store = Store {
            setup,
            operation: None,
            readers,
            writers,
            sources,
            produced: Table::new(),
            bindings: Table::new(),
            lent,
            logs: Vec::new(),
            budget: LogBudget::new(),
            source_reads: Table::new(),
        };
        proof {
            assert(store@.sources.dom() =~= sources@.dom());
            assert(store@.lent =~= parameter_sources(setup, store@.sources.dom()));
            assert(store@.produced =~= Set::empty());
            assert(store@.bindings =~= Map::empty());
            assert(store@.logs =~= Seq::empty());
            assert(store@.source_reads.dom() =~= Set::empty());
            assert(store.produced@.dom() =~= store.bindings@.dom());
        }
        store
    }
}

/// The members of an object in the order of a table.
pub open spec fn table_members<T>(entries: Seq<(String, T)>, value: spec_fn(T) -> JsonValue) -> JsonValue {
    JsonValue::Object(entries.map_values(|entry: (String, T)| (entry.0@, value(entry.1))))
}

/// The digest of each source by its id.
pub open spec fn digests_value(sources: Seq<(String, LocalSource)>) -> JsonValue {
    table_members(sources, |source: LocalSource| JsonValue::Text(digest_of(source.bytes@)))
}

/// What a run starts from, as JSON; the digest of its text is the input commit.
pub open spec fn input_value(inputs: Inputs, sources: Table<LocalSource>) -> JsonValue {
    JsonValue::Object(
        seq![
            (
                "resources"@,
                table_members(inputs.readers.entries@, |items: Vec<Json>| JsonValue::Array(values_of(items@))),
            ),
            ("parameters"@, inputs.parameters@),
            ("configuration"@, inputs.configuration@),
            ("sources"@, digests_value(sources.entries@)),
        ],
    )
}

fn digests_json(sources: &Table<LocalSource>) -> (json: Json)
    ensures
        json@ == digests_value(sources.entries@),
{
    let mut members: Vec<(String, Json)> = Vec::new();
    let mut index: usize = 0;
    while index < sources.entries.len()
        invariant
            index <= sources.entries.len(),
            members@.len() == index,
            forall|i: int|
                0 <= i < index ==> (#[trigger] members@[i]).0@ == sources.entries@[i].0@ && members@[i].1@
                    == JsonValue::Text(digest_of(sources.entries@[i].1.bytes@)),
        decreases sources.entries.len() - index,
    {
        let entry = &sources.entries[index];
        members.push((entry.0.clone(), Json::Text(digest(entry.1.bytes.as_slice()))));
        index += 1;
    }
    proof {
        lemma_object(members);
        assert(members_of(members@) =~= digests_value(sources.entries@)->Object_0);
    }
    Json::Object(members)
}

/// Returns what a run starts from, as JSON.
pub fn input_snapshot(inputs: &Inputs, sources: &Table<LocalSource>) -> (snapshot: Json)
    ensures
        snapshot@ == input_value(*inputs, *sources),
{
    let mut resources: Vec<(String, Json)> = Vec::new();
    let mut index: usize = 0;
    let ghost shown = |items: Vec<Json>| JsonValue::Array(values_of(items@));
    while index < inputs.readers.entries.len()
        invariant
            index <= inputs.readers.entries.len(),
            resources@.len() == index,
            forall|i: int|
                0 <= i < index ==> (#[trigger] resources@[i]).0@ == inputs.readers.entries@[i].0@ && resources@[i].1@
                    == JsonValue::Array(values_of(inputs.readers.entries@[i].1@)),
        decreases inputs.readers.entries.len() - index,
    {
        let entry = &inputs.readers.entries[index];
        let copied = copy_values(&entry.1);
        proof {
            lemma_array(copied);
        }
        resources.push((entry.0.clone(), Json::Array(copied)));
        index += 1;
    }
    let mut members: Vec<(String, Json)> = Vec::new();
    proof {
        lemma_object(resources);
        assert(members_of(resources@) =~= table_members(inputs.readers.entries@, shown)->Object_0);
    }
    members.push(("resources".to_owned(), Json::Object(resources)));
    members.push(("parameters".to_owned(), inputs.parameters.copy()));
    members.push(("configuration".to_owned(), inputs.configuration.copy()));
    members.push(("sources".to_owned(), digests_json(sources)));
    proof {
        lemma_object(members);
        assert(members_of(members@) =~= input_value(*inputs, *sources)->Object_0);
    }
    Json::Object(members)
}

/// What was committed to a resource, as JSON.
pub open spec fn writer_value(writer: Writer) -> JsonValue {
    JsonValue::Object(
        seq![
            ("items"@, table_members(writer.items.entries@, |item: Json| item@)),
            ("written"@, unsigned(writer.written)),
            ("cursor"@, JsonValue::Text(writer.cursor@)),
        ],
    )
}

fn writer_json(writer: &Writer) -> (json: Json)
    ensures
        json@ == writer_value(*writer),
{
    let mut items: Vec<(String, Json)> = Vec::new();
    let mut index: usize = 0;
    while index < writer.items.entries.len()
        invariant
            index <= writer.items.entries.len(),
            items@.len() == index,
            forall|i: int|
                0 <= i < index ==> (#[trigger] items@[i]).0@ == writer.items.entries@[i].0@ && items@[i].1@
                    == writer.items.entries@[i].1@,
        decreases writer.items.entries.len() - index,
    {
        let entry = &writer.items.entries[index];
        items.push((entry.0.clone(), entry.1.copy()));
        index += 1;
    }
    proof {
        lemma_object(items);
        assert(members_of(items@) =~= table_members(writer.items.entries@, |item: Json| item@)->Object_0);
    }
    let mut members: Vec<(String, Json)> = Vec::new();
    members.push(("items".to_owned(), Json::Object(items)));
    members.push(("written".to_owned(), Json::Number(Number::Unsigned(writer.written))));
    members.push(("cursor".to_owned(), Json::Text(writer.cursor.clone())));
    proof {
        lemma_object(members);
        assert(members_of(members@) =~= writer_value(*writer)->Object_0);
    }
    Json::Object(members)
}

/// What was committed to every resource, as JSON.
pub open spec fn writers_value(writers: Seq<(String, Writer)>) -> JsonValue {
    table_members(writers, |writer: Writer| writer_value(writer))
}

pub(crate) fn writers_json(writers: &Table<Writer>) -> (json: Json)
    ensures
        json@ == writers_value(writers.entries@),
{
    let mut members: Vec<(String, Json)> = Vec::new();
    let mut index: usize = 0;
    while index < writers.entries.len()
        invariant
            index <= writers.entries.len(),
            members@.len() == index,
            forall|i: int|
                0 <= i < index ==> (#[trigger] members@[i]).0@ == writers.entries@[i].0@ && members@[i].1@
                    == writer_value(writers.entries@[i].1),
        decreases writers.entries.len() - index,
    {
        members.push((writers.entries[index].0.clone(), writer_json(&writers.entries[index].1)));
        index += 1;
    }
    proof {
        lemma_object(members);
        assert(members_of(members@) =~= writers_value(writers.entries@)->Object_0);
    }
    Json::Object(members)
}

impl Store {
    /// The digest of each produced source, in the order of their ids.
    pub open spec fn produced_digests(&self) -> JsonValue {
        table_members(self.produced_sources(), |bytes: Seq<u8>| JsonValue::Text(digest_of(bytes)))
    }

    /// The id and the bytes of each produced source, in the order of their ids.
    pub open spec fn produced_sources(&self) -> Seq<(String, Seq<u8>)> {
        self.produced.entries@.map_values(|entry: (String, ())| (entry.0, self.sources@[entry.0@].bytes@))
    }

    /// What a run has come to, as JSON; the digest of its text is the result commit.
    pub open spec fn result_value(&self) -> JsonValue {
        JsonValue::Object(
            seq![
                ("parent"@, JsonValue::Text(self.setup.input_commit@)),
                ("operation"@, JsonValue::Text(self.setup.operation_id@)),
                ("resources"@, writers_value(self.writers.entries@)),
                ("sources"@, self.produced_digests()),
            ],
        )
    }

    /// Returns what a run has come to, as JSON.
    pub fn result_snapshot(&self) -> (snapshot: Json)
        requires
            self.wf(),
        ensures
            snapshot@ == self.result_value(),
    {
        let mut sources: Vec<(String, Json)> = Vec::new();
        let mut index: usize = 0;
        while index < self.produced.entries.len()
            invariant
                index <= self.produced.entries.len(),
                self.wf(),
                sources@.len() == index,
                forall|i: int|
                    0 <= i < index ==> (#[trigger] sources@[i]).0@ == self.produced.entries@[i].0@ && sources@[i].1@
                        == JsonValue::Text(digest_of(self.sources@[self.produced.entries@[i].0@].bytes@)),
            decreases self.produced.entries.len() - index,
        {
            let id = &self.produced.entries[index].0;
            proof {
                self.produced.lemma_entry(index as int);
                assert(self.sources@.dom().contains(id@));
            }
            if let Some(source) = self.sources.get(id.as_str()) {
                sources.push((id.clone(), Json::Text(digest(source.bytes.as_slice()))));
            }
            index += 1;
        }
        proof {
            lemma_object(sources);
            assert(members_of(sources@) =~= self.produced_digests()->Object_0);
        }
        let mut members: Vec<(String, Json)> = Vec::new();
        members.push(("parent".to_owned(), Json::Text(self.setup.input_commit.clone())));
        members.push(("operation".to_owned(), Json::Text(self.setup.operation_id.clone())));
        members.push(("resources".to_owned(), writers_json(&self.writers)));
        members.push(("sources".to_owned(), Json::Object(sources)));
        proof {
            lemma_object(members);
            assert(members_of(members@) =~= self.result_value()->Object_0);
        }
        Json::Object(members)
    }
}

/// Characters that a filename may not hold on Windows.
pub open spec fn forbidden(character: char) -> bool {
    character == '<' || character == '>' || character == ':' || character == '"' || character == '|' || character == '?'
        || character == '*'
}

/// The part of a filename before its first dot.
pub open spec fn stem(filename: Seq<char>) -> Seq<char> {
    pieces(filename, '.')[0]
}

/// A device name on Windows, in letters of either case.
pub open spec fn reserved(stem: Seq<char>) -> bool {
    let name = in_small_letters(stem);
    ||| name == "con"@ || name == "prn"@ || name == "aux"@ || name == "nul"@
    ||| (name.len() == 4 && (name.take(3) == "com"@ || name.take(3) == "lpt"@) && '1' <= name[3] <= '9')
}

/// A filename that cannot be written on Windows.
pub open spec fn unwritable(filename: Seq<char>) -> bool {
    ||| reserved(stem(filename))
    ||| exists|index: int| 0 <= index < filename.len() && forbidden(#[trigger] filename[index])
    ||| (filename.len() > 0 && (filename.last() == ' ' || filename.last() == '.'))
}

fn is_reserved(stem: &str) -> (result: bool)
    ensures
        result == reserved(stem@),
{
    let name = write_small(stem);
    if same_text(name.as_str(), "con") || same_text(name.as_str(), "prn") || same_text(name.as_str(), "aux")
        || same_text(name.as_str(), "nul") {
        return true;
    }
    let characters = chars_of(name.as_str());
    if characters.len() != 4 {
        return false;
    }
    let head = text_between(&characters, 0, 3);
    assert(head@ =~= name@.take(3));
    (same_text(head.as_str(), "com") || same_text(head.as_str(), "lpt")) && '1' <= characters[3] && characters[3]
        <= '9'
}

/// Returns the name under which a source is exported: its filename, but for one that
/// cannot be written on Windows there.
pub fn export_filename(filename: &str, windows: bool) -> (name: &str)
    ensures
        name@ == if windows && unwritable(filename@) {
            "source"@
        } else {
            filename@
        },
        !(windows && unwritable(filename@)) ==> name == filename,
{
    if !windows {
        return filename;
    }
    let characters = chars_of(filename);
    let parts = split_text(filename, '.');
    proof {
        lemma_pieces_nonempty(filename@, '.');
        assert(parts@.map_values(|part: String| part@).len() == parts@.len());
        assert(parts@.map_values(|part: String| part@)[0] == parts@[0]@);
    }
    if is_reserved(parts[0].as_str()) {
        return "source";
    }
    let mut index: usize = 0;
    while index < characters.len()
        invariant
            index <= characters.len(),
            windows,
            characters@ == filename@,
            forall|i: int| 0 <= i < index ==> !forbidden(#[trigger] filename@[i]),
        decreases characters.len() - index,
    {
        let c = characters[index];
        if c == '<' || c == '>' || c == ':' || c == '"' || c == '|' || c == '?' || c == '*' {
            assert(forbidden(filename@[index as int]));
            return "source";
        }
        index += 1;
    }
    if characters.len() > 0 && (characters[characters.len() - 1] == ' ' || characters[characters.len() - 1] == '.') {
        return "source";
    }
    filename
}

/// A report lists the key of every committed item under its resource, and nothing else, unless
/// there are more than a hundred or their text is longer than 64 KiB: then it lists none and
/// says so.
pub proof fn law_reported_keys(writers: Seq<(String, Writer)>, index: int, place: int)
    requires
        0 <= index < writers.len(),
        0 <= place < writers[index].1.items.entries@.len(),
    ensures
        ({
            let (keys, truncated) = reported_keys(writers);
            let all = written_keys(writers, writers.len() as int);
            &&& all.contains((writers[index].0@, writers[index].1.items.entries@[place].0@))
            &&& truncated <==> all.len() > 100 || byte_count(json_text(keys_value(all))) > 65536
            &&& truncated ==> keys.len() == 0
            &&& !truncated ==> keys == all
        }),
{
    lemma_key_written(writers, index, place, writers.len() as int);
}

proof fn lemma_key_written(writers: Seq<(String, Writer)>, index: int, place: int, count: int)
    requires
        0 <= index < count <= writers.len(),
        0 <= place < writers[index].1.items.entries@.len(),
    ensures
        written_keys(writers, count).contains((writers[index].0@, writers[index].1.items.entries@[place].0@)),
    decreases count,
{
    let earlier = written_keys(writers, count - 1);
    let all = written_keys(writers, count);
    let key = (writers[index].0@, writers[index].1.items.entries@[place].0@);
    if index == count - 1 {
        assert(writer_keys(writers[index])[place] == key);
        assert(all[earlier.len() + place] == key);
    } else {
        lemma_key_written(writers, index, place, count - 1);
        let at = choose|at: int| 0 <= at < earlier.len() && earlier[at] == key;
        assert(all[at] == key);
    }
}

/// As many keys are written as there are items, in all writers together: one more writer adds
/// its own behind those before.
pub proof fn law_keys_are_written_writer_by_writer(writers: Seq<(String, Writer)>, count: int)
    requires
        0 < count <= writers.len(),
    ensures
        ({
            let earlier = written_keys(writers, count - 1);
            let all = written_keys(writers, count);
            &&& all.len() == earlier.len() + writers[count - 1].1.items.entries@.len()
            &&& all.take(earlier.len() as int) == earlier
            &&& forall|i: int|
                earlier.len() <= i < all.len() ==> (#[trigger] all[i]).0 == writers[count - 1].0@ && all[i].1
                    == writers[count - 1].1.items.entries@[i - earlier.len()].0@
        }),
        written_keys(writers, 0).len() == 0,
{
    let earlier = written_keys(writers, count - 1);
    let all = written_keys(writers, count);
    assert(all.take(earlier.len() as int) =~= earlier);
    assert forall|i: int| earlier.len() <= i < all.len() implies (#[trigger] all[i]).0 == writers[count - 1].0@ && all[i].1
        == writers[count - 1].1.items.entries@[i - earlier.len()].0@ by {
        assert(all[i] == writer_keys(writers[count - 1])[i - earlier.len()]);
    }
}

/// A report counts what was written to each resource and what was read of each, in the order of
/// their names.
pub proof fn law_report_counts(report: ReportView, store: Store)
    requires
        is_report(report, store),
    ensures
        report.resources.len() == store.writers.entries@.len(),
        forall|i: int|
            0 <= i < report.resources.len() ==> #[trigger] report.resources[i] == (
                store.writers.entries@[i].0@,
                store.writers.entries@[i].1.written,
            ),
        report.reads.len() == store.readers.entries@.len(),
        forall|i: int|
            0 <= i < report.reads.len() ==> (#[trigger] report.reads[i]).0 == store.readers.entries@[i].0@
                && report.reads[i].1 == store.setup.inputs.readers@[store.readers.entries@[i].0@]@.len() as u64
                && report.reads[i].2 == store.readers.entries@[i].1.acknowledged,
        report.source_count == store.source_reads.entries@.len(),
        report.truncated <==> written_keys(store.writers.entries@, store.writers.entries@.len() as int).len() > 100
            || byte_count(
            json_text(keys_value(written_keys(store.writers.entries@, store.writers.entries@.len() as int))),
        ) > 65536,
        !report.truncated ==> report.keys == written_keys(store.writers.entries@, store.writers.entries@.len() as int),
{
}

/// A key is shown with its resource.
pub proof fn law_keys_are_shown(keys: Seq<(Seq<char>, Seq<char>)>, index: int)
    requires
        0 <= index < keys.len(),
    ensures
        keys_value(keys) matches JsonValue::Array(shown) && shown.len() == keys.len() && shown[index] == JsonValue::Object(
            seq![
                ("extensionResourceId"@, JsonValue::Text(keys[index].0)),
                ("key"@, JsonValue::Text(keys[index].1)),
            ],
        ),
{
}

/// A failure is kept with all its members; only its message is cut where it is too long, and
/// what is left of it begins it.
pub proof fn law_failures_are_kept(failure: JsonValue, key: Seq<char>)
    ensures
        member(failure, "message"@) matches Some(JsonValue::Text(message)) ==> (member(
            kept_failure(failure),
            "message"@,
        ) matches Some(JsonValue::Text(kept)) && kept.is_prefix_of(message) && byte_count(kept) <= 4096 && (byte_count(
            message,
        ) <= 4096 ==> kept == message)),
        key != "message"@ ==> member(kept_failure(failure), key) == member(failure, key),
        !(member(failure, "message"@) matches Some(JsonValue::Text(_))) ==> kept_failure(failure) == failure,
{
    if let JsonValue::Object(members) = failure {
        if let Some(JsonValue::Text(message)) = lookup(members, "message"@) {
            law_truncation(message, MAX_LOG_LINE_BYTES as int);
            law_put_member_changes_one(
                members,
                "message"@,
                JsonValue::Text(fitting(message, MAX_LOG_LINE_BYTES as int)),
                key,
            );
        }
    }
}

/// An object made of a table has one member for each entry, in its order.
pub proof fn law_tables_are_shown<T>(entries: Seq<(String, T)>, value: spec_fn(T) -> JsonValue, index: int)
    requires
        0 <= index < entries.len(),
    ensures
        table_members(entries, value) matches JsonValue::Object(members) && members.len() == entries.len() && members[index]
            == (entries[index].0@, value(entries[index].1)),
{
}

/// What a run starts from names all its fixtures, its parameters, its configuration and the
/// digests of its sources.
pub proof fn law_inputs_are_committed(inputs: Inputs, sources: Table<LocalSource>)
    ensures
        input_value(inputs, sources) matches JsonValue::Object(members) && {
            &&& members.len() == 4
            &&& members.contains(("parameters"@, inputs.parameters@))
            &&& members.contains(("configuration"@, inputs.configuration@))
            &&& exists|shown: JsonValue| #[trigger]
                members.contains(("resources"@, shown)) && shows_fixtures(shown, inputs.readers.entries@)
            &&& exists|shown: JsonValue| #[trigger]
                members.contains(("sources"@, shown)) && shows_digests(shown, sources.entries@)
        },
{
    let members = input_value(inputs, sources)->Object_0;
    assert(members[1] == ("parameters"@, inputs.parameters@));
    assert(members[2] == ("configuration"@, inputs.configuration@));
    let fixtures = members[0].1;
    assert(members[0] == ("resources"@, fixtures));
    assert(members.contains(("resources"@, fixtures)) && shows_fixtures(fixtures, inputs.readers.entries@));
    let digests = members[3].1;
    assert(members[3] == ("sources"@, digests));
    assert(members.contains(("sources"@, digests)) && shows_digests(digests, sources.entries@));
}

/// The items of each fixture by its resource.
pub open spec fn shows_fixtures(shown: JsonValue, readers: Seq<(String, Vec<Json>)>) -> bool {
    shown matches JsonValue::Object(members) && members.len() == readers.len() && forall|i: int|
        0 <= i < readers.len() ==> #[trigger] members[i] == (
            readers[i].0@,
            JsonValue::Array(values_of(readers[i].1@)),
        )
}

/// The digest of each source by its id.
pub open spec fn shows_digests(shown: JsonValue, sources: Seq<(String, LocalSource)>) -> bool {
    shown matches JsonValue::Object(members) && members.len() == sources.len() && forall|i: int|
        0 <= i < sources.len() ==> #[trigger] members[i] == (
            sources[i].0@,
            JsonValue::Text(digest_of(sources[i].1.bytes@)),
        )
}

/// The items of a writer as they were committed, its count and its cursor.
pub open spec fn shows_writer(shown: JsonValue, writer: Writer) -> bool {
    shown matches JsonValue::Object(members) && {
        &&& members.len() == 3
        &&& members[0].0 == "items"@
        &&& members[0].1 matches JsonValue::Object(items) && items.len()
            == writer.items.entries@.len() && forall|i: int|
            0 <= i < items.len() ==> #[trigger] items[i] == (writer.items.entries@[i].0@, writer.items.entries@[i].1@)
        &&& members[1] == ("written"@, JsonValue::Number(NumberView::Unsigned(writer.written)))
        &&& members[2] == ("cursor"@, JsonValue::Text(writer.cursor@))
    }
}

/// What a run has come to names what it came from, every committed item of every resource, and
/// the digests of the sources that it produced.
pub proof fn law_results_are_committed(store: Store)
    ensures
        store.result_value() matches JsonValue::Object(members) && {
            &&& members.len() == 4
            &&& members.contains(("parent"@, JsonValue::Text(store.setup.input_commit@)))
            &&& members.contains(("operation"@, JsonValue::Text(store.setup.operation_id@)))
            &&& members[2].0 == "resources"@
            &&& members[2].1 matches JsonValue::Object(resources) && resources.len()
                == store.writers.entries@.len() && forall|i: int|
                0 <= i < resources.len() ==> (#[trigger] resources[i]).0 == store.writers.entries@[i].0@ && shows_writer(
                    resources[i].1,
                    store.writers.entries@[i].1,
                )
            &&& members[3].0 == "sources"@
            &&& members[3].1 matches JsonValue::Object(sources) && sources.len()
                == store.produced.entries@.len() && forall|i: int|
                0 <= i < sources.len() ==> #[trigger] sources[i] == (
                    store.produced.entries@[i].0@,
                    JsonValue::Text(digest_of(store.sources@[store.produced.entries@[i].0@].bytes@)),
                )
        },
{
    let members = store.result_value()->Object_0;
    assert(members[0] == ("parent"@, JsonValue::Text(store.setup.input_commit@)));
    assert(members[1] == ("operation"@, JsonValue::Text(store.setup.operation_id@)));
}

/// A filename cannot be written on Windows exactly where it holds one of seven characters, ends
/// in a space or a dot, or is a device before its first dot, in letters of either case.
pub proof fn law_unwritable_filenames(filename: Seq<char>)
    ensures
        unwritable(filename) <==> {
            let name = in_small_letters(pieces(filename, '.')[0]);
            ||| exists|i: int|
                0 <= i < filename.len() && (#[trigger] filename[i] == '<' || filename[i] == '>' || filename[i] == ':'
                    || filename[i] == '"' || filename[i] == '|' || filename[i] == '?' || filename[i] == '*')
            ||| filename.len() > 0 && (filename.last() == ' ' || filename.last() == '.')
            ||| name == "con"@ || name == "prn"@ || name == "aux"@ || name == "nul"@
            ||| name.len() == 4 && (name.take(3) == "com"@ || name.take(3) == "lpt"@) && '1' <= name[3] <= '9'
        },
{
    if exists|i: int| 0 <= i < filename.len() && forbidden(#[trigger] filename[i]) {
        let i = choose|i: int| 0 <= i < filename.len() && forbidden(#[trigger] filename[i]);
        assert(filename[i] == '<' || filename[i] == '>' || filename[i] == ':' || filename[i] == '"' || filename[i] == '|'
            || filename[i] == '?' || filename[i] == '*');
    }
}

/// A run starts with every fixture unread, every writer empty, the sources that its
/// parameters refer to lent, and nothing produced, noted or logged.
pub proof fn law_runs_start_clean(state: StoreView, setup: Setup, sources: Table<LocalSource>, name: Seq<char>)
    requires
        is_fresh(state, setup, sources),
    ensures
        state.operation is None,
        state.readers.dom().contains(name) <==> setup.inputs.readers@.dom().contains(name),
        state.readers.dom().contains(name) ==> state.readers[name].acknowledged == 0 && state.readers[name].pending is None
            && !state.readers[name].drained,
        state.writers.dom().contains(name) <==> setup.action().permits(name, Capability::Write),
        state.writers.dom().contains(name) ==> {
            let writer = state.writers[name];
            &&& writer.items.dom() == Set::<Seq<char>>::empty()
            &&& writer.written == 0 && writer.staged.len() == 0 && writer.staged_bytes == 0
            &&& writer.cursor.len() == 0
        },
        state.sources == source_views(sources),
        state.lent.contains(name) <==> mentions(setup.inputs.parameters@, state.sources.dom(), name),
        !state.produced.contains(name) && !state.bindings.dom().contains(name) && !state.source_reads.dom().contains(name),
        state.logs.len() == 0 && state.budget.bytes == 0 && !state.budget.dropped,
{
    reveal_strlit("");
}

} // verus!

//! What one attempt of an action was granted and what became of it.

use vstd::prelude::*;
use vstd::string::*;

use crate::host::{ExecutionError, Failure, FailureView, GuestError, HostError, Retry};
use crate::json::{json_text, member, number_in, write_json, Json, JsonValue};
use crate::logs::{
    clean, clean_line, law_clean_lines_are_kept, law_no_line_holds_a_token, logged, LogBudget, LogLevel, LogLine,
};
use crate::manifest::{has_capability, listed, Action, Capability, Manifest, Resource};
use crate::redact::{longest_first, order_tokens, redact_value, redacted_value};
use crate::request::{lends, Request, Source, MAX_BATCH_BYTES, MAX_CURSOR_BYTES};
use crate::sources::{
    collect_sources, declared_schema, find_declared, is_source_schema, refers_to, source_schema, MAX_SOURCE_BYTES,
};
use crate::table::Table;
use crate::text::{byte_count, byte_len, occurs, same_text, texts};

verus! {

/// The most items of a page or a batch.
pub const MAX_ITEMS: usize = 1_000;

/// The longest item, in bytes.
pub const MAX_ITEM_BYTES: usize = 1024 * 1024;

/// The longest provider token, in bytes.
pub const MAX_TOKEN_BYTES: usize = 16 * 1024;

/// A freshly issued provider token.
pub struct AccessToken {
    /// The secret, copied into the guest for its declared connection only.
    pub value: String,
    /// When the issuer lets it expire, as an RFC 3339 text.
    pub expires_at: String,
    /// The granted scopes.
    pub scopes: Vec<String>,
}

impl AccessToken {
    /// Returns what a diagnostic may show of a token: nothing of its value.
    pub fn debug_text(&self) -> (text: String)
        ensures
            text@ == "AccessToken { .. }"@,
    {
        "AccessToken { .. }".to_owned()
    }
}

/// What an attempt was granted, and the failures noted so far.
pub struct Attempt {
    pub connections: Vec<String>,
    pub resources: Table<Vec<Capability>>,
    pub schemas: Table<Json>,
    pub opened_writers: Table<()>,
    pub lent_sources: Table<()>,
    pub has_reader: bool,
    pub tokens: Vec<String>,
    pub budget: LogBudget,
    pub source_failure: bool,
    pub read_failure: bool,
    pub read_cause: Option<String>,
    pub write_cause: Option<String>,
    pub pending_sources: usize,
    pub invalid: bool,
    pub ceiling: bool,
}

/// What an attempt was granted, and the failures noted so far.
pub ghost struct AttemptView {
    pub connections: Seq<Seq<char>>,
    pub resources: Map<Seq<char>, Seq<Capability>>,
    pub schemas: Map<Seq<char>, JsonValue>,
    pub opened: Set<Seq<char>>,
    pub lent: Set<Seq<char>>,
    pub has_reader: bool,
    pub tokens: Seq<Seq<char>>,
    pub budget: LogBudget,
    pub source_failure: bool,
    pub read_failure: bool,
    pub read_cause: Option<Seq<char>>,
    pub write_cause: Option<Seq<char>>,
    pub pending: nat,
    pub invalid: bool,
    pub ceiling: bool,
}

/// The text of a cause.
pub open spec fn cause_text(cause: Option<String>) -> Option<Seq<char>> {
    match cause {
        Some(cause) => Some(cause@),
        None => None,
    }
}

impl View for Attempt {
    type V = AttemptView;

    open spec fn view(&self) -> AttemptView {
        AttemptView {
            connections: texts(self.connections@),
            resources: self.resources@.map_values(|capabilities: Vec<Capability>| capabilities@),
            schemas: self.schemas@.map_values(|schema: Json| schema@),
            opened: self.opened_writers@.dom(),
            lent: self.lent_sources@.dom(),
            has_reader: self.has_reader,
            tokens: texts(self.tokens@),
            budget: self.budget,
            source_failure: self.source_failure,
            read_failure: self.read_failure,
            read_cause: cause_text(self.read_cause),
            write_cause: cause_text(self.write_cause),
            pending: self.pending_sources as nat,
            invalid: self.invalid,
            ceiling: self.ceiling,
        }
    }
}

impl AttemptView {
    /// The attempt may use `resource` in this way.
    pub open spec fn permits(self, resource: Seq<char>, capability: Capability) -> bool {
        self.resources.dom().contains(resource) && self.resources[resource].contains(capability)
    }

    /// The attempt was granted the connection.
    pub open spec fn connects(self, connection: Seq<char>) -> bool {
        self.connections.contains(connection)
    }

    /// The notes after an adapter's error on a call.
    pub open spec fn noting(self, error: HostError) -> AttemptView {
        match error {
            HostError::Invalid(_) => AttemptView { invalid: true, ..self },
            HostError::TooLarge => AttemptView { ceiling: true, ..self },
            HostError::SourceUnreadable => AttemptView { read_failure: true, ..self },
            HostError::SourceRead(cause) => AttemptView {
                read_failure: true,
                read_cause: first_cause(self.read_cause, cause@),
                ..self
            },
            HostError::SourceWrite(cause) => AttemptView {
                source_failure: true,
                write_cause: first_cause(self.write_cause, cause@),
                ..self
            },
            _ => self,
        }
    }
}

/// The cause that is remembered: the first one.
pub open spec fn first_cause(known: Option<Seq<char>>, cause: Seq<char>) -> Option<Seq<char>> {
    match known {
        Some(known) => Some(known),
        None => Some(cause),
    }
}

/// Remembers a cause where none is known.
pub fn remember_cause(known: &mut Option<String>, cause: &str)
    ensures
        cause_text(*final(known)) == first_cause(cause_text(*old(known)), cause@),
{
    if known.is_none() {
        *known = Some(cause.to_owned());
    }
}

/// An item that an adapter read: its text, its value where the text is a strict
/// JSON object, and whether the value satisfies the schema of its resource.
pub struct ReadItem {
    pub text: String,
    pub value: Option<Json>,
    pub conforms: bool,
}

/// The bytes of the first `count` items together.
pub open spec fn page_bytes(items: Seq<ReadItem>, count: int) -> int
    decreases count,
{
    if count <= 0 {
        0
    } else {
        page_bytes(items, count - 1) + byte_count(items[count - 1].text@)
    }
}

/// Why the item at `index` of a page is refused, if it is.
pub open spec fn item_fault(items: Seq<ReadItem>, index: int) -> Option<HostError> {
    if byte_count(items[index].text@) > MAX_ITEM_BYTES || page_bytes(items, index + 1) > MAX_BATCH_BYTES {
        Some(HostError::TooLarge)
    } else if items[index].value is None {
        Some(HostError::Invalid("read item is not a JSON object"))
    } else if !items[index].conforms {
        Some(HostError::Invalid("read item does not satisfy its schema"))
    } else {
        None
    }
}

/// Why a page is refused from the item at `index` on, if it is.
pub open spec fn page_fault(items: Seq<ReadItem>, index: int) -> Option<HostError>
    decreases items.len() - index,
{
    if index >= items.len() {
        None
    } else if item_fault(items, index) is Some {
        item_fault(items, index)
    } else {
        page_fault(items, index + 1)
    }
}

/// Some item of the first `count` refers to the source `id`.
pub open spec fn page_refers(items: Seq<ReadItem>, schema: JsonValue, count: int, id: Seq<char>) -> bool {
    exists|index: int|
        0 <= index < count && ((#[trigger] items[index]).value matches Some(value) && refers_to(schema, value@, id))
}

/// A batch of items while the guest writes them.
pub struct Batch {
    /// The redacted texts of the admitted items.
    pub staged: Vec<String>,
    /// The bytes of all received items together.
    pub bytes: usize,
    /// The bytes of the staged texts together.
    pub staged_bytes: usize,
}

impl Batch {
    /// The batch is within its bounds.
    pub open spec fn wf(&self) -> bool {
        self.staged@.len() <= MAX_ITEMS && self.bytes <= MAX_BATCH_BYTES && self.staged_bytes <= MAX_BATCH_BYTES
    }

    /// A batch without items.
    pub fn new() -> (batch: Batch)
        ensures
            batch.wf(),
            batch.staged@.len() == 0,
            batch.bytes == 0,
            batch.staged_bytes == 0,
    {
        Batch { staged: Vec::new(), bytes: 0, staged_bytes: 0 }
    }
}

impl Attempt {
    /// The tables are in order, every granted resource has a schema, tokens are not
    /// empty and the log is within its budget.
    pub open spec fn wf(&self) -> bool {
        &&& self.resources.wf() && self.schemas.wf() && self.opened_writers.wf() && self.lent_sources.wf()
        &&& self.budget.wf()
        &&& forall|name: Seq<char>| #[trigger]
            self.resources@.dom().contains(name) ==> self.schemas@.dom().contains(name)
        &&& forall|index: int| 0 <= index < self.tokens@.len() ==> (#[trigger] self.tokens@[index])@.len() > 0
    }

    /// Whether the attempt may use `resource` in this way.
    fn allows(&self, resource: &str, capability: Capability) -> (allowed: bool)
        requires
            self.resources.wf(),
        ensures
            allowed == self@.permits(resource@, capability),
    {
        match self.resources.get(resource) {
            Some(capabilities) => has_capability(capabilities, capability),
            None => false,
        }
    }

    fn has_connection(&self, connection: &str) -> (found: bool)
        ensures
            found == self@.connects(connection@),
    {
        let found = listed(&self.connections, connection);
        proof {
            let names = texts(self.connections@);
            if found {
                let index = choose|i: int| 0 <= i < self.connections@.len() && (#[trigger] self.connections@[i])@ == connection@;
                assert(names[index] == connection@);
            }
            if names.contains(connection@) {
                let index = choose|i: int| 0 <= i < names.len() && names[i] == connection@;
                assert(self.connections@[index]@ == connection@);
            }
        }
        found
    }

    /// Admits a line of the guest's log and returns what is to be kept of it.
    pub fn log(&mut self, level: LogLevel, message: &str) -> (line: Option<LogLine>)
        requires
            old(self).wf(),
        ensures
            final(self).wf(),
            ({
                let (budget, kept) = logged(old(self)@.budget, level, message@, old(self)@.tokens);
                &&& final(self)@ == (AttemptView { budget, ..old(self)@ })
                &&& match line {
                    Some(line) => kept == Some(line@),
                    None => kept is None,
                }
            }),
    {
        self.budget.log(level, message, &self.tokens)
    }

    /// Decides whether the guest may ask for a token of `connection`.
    pub fn request_token(&self, connection: &str) -> (granted: Result<(), GuestError>)
        ensures
            granted == if self@.connects(connection@) {
                Ok::<(), GuestError>(())
            } else {
                Err::<(), _>(GuestError::Invalid("connection is not declared by the action"))
            },
    {
        if self.has_connection(connection) {
            Ok(())
        } else {
            Err(GuestError::Invalid("connection is not declared by the action"))
        }
    }

    /// Notes the token that the adapter issued, or refuses one that cannot be used.
    pub fn issue_token(&mut self, token: AccessToken) -> (issued: Result<AccessToken, GuestError>)
        requires
            old(self).wf(),
        ensures
            final(self).wf(),
            if token.value@.len() == 0 || byte_count(token.value@) > MAX_TOKEN_BYTES {
                issued == Err::<AccessToken, _>(GuestError::Unavailable("provider token is invalid")) && final(self)@
                    == old(self)@
            } else {
                issued == Ok::<_, GuestError>(token) && final(self)@ == (AttemptView {
                    tokens: old(self)@.tokens.push(token.value@),
                    ..old(self)@
                })
            },
    {
        if token.value.as_str().is_empty() || byte_len(token.value.as_str()) > MAX_TOKEN_BYTES {
            return Err(GuestError::Unavailable("provider token is invalid"));
        }
        let ghost before = self.tokens@;
        self.tokens.push(token.value.clone());
        assert(texts(self.tokens@) =~= texts(before).push(token.value@));
        Ok(token)
    }

    /// Decides whether the guest may open the source `id`.
    pub fn open_source(&self, id: &str) -> (granted: Result<(), GuestError>)
        requires
            self.wf(),
        ensures
            granted == if self@.lent.contains(id@) {
                Ok::<(), GuestError>(())
            } else {
                Err::<(), _>(GuestError::Invalid("source was not lent to this attempt"))
            },
    {
        if self.lent_sources.contains(id) {
            Ok(())
        } else {
            Err(GuestError::Invalid("source was not lent to this attempt"))
        }
    }

    /// Notes that the adapter could not open a lent source.
    pub fn source_not_opened(&mut self, error: &HostError)
        requires
            old(self).wf(),
        ensures
            final(self).wf(),
            final(self)@ == (AttemptView {
                read_failure: true,
                read_cause: match error {
                    HostError::SourceRead(cause) => first_cause(old(self)@.read_cause, cause@),
                    _ => old(self)@.read_cause,
                },
                ..old(self)@
            }),
    {
        self.read_failure = true;
        if let HostError::SourceRead(cause) = error {
            remember_cause(&mut self.read_cause, cause.as_str());
        }
    }

    /// Notes that reading a lent source failed.
    pub fn source_not_read(&mut self, cause: &str)
        requires
            old(self).wf(),
        ensures
            final(self).wf(),
            final(self)@ == (AttemptView {
                read_failure: true,
                read_cause: first_cause(old(self)@.read_cause, cause@),
                ..old(self)@
            }),
    {
        self.read_failure = true;
        remember_cause(&mut self.read_cause, cause);
    }

    /// Opens the writer of a resource: once in an attempt, and with the one
    /// connection of an action that has one.
    pub fn open_writer(&mut self, name: &str, connection: Option<&str>) -> (opened: Result<(), GuestError>)
        requires
            old(self).wf(),
        ensures
            final(self).wf(),
            ({
                let state = old(self)@;
                let declared = state.permits(name@, Capability::Write) && (connection matches Some(connection)
                    ==> state.connects(connection@)) && (state.connections.len() == 1 ==> (connection matches Some(
                    connection,
                ) && connection@ == state.connections[0]));
                if !declared {
                    opened == Err::<(), _>(GuestError::Invalid("writer capability is not declared")) && final(self)@
                        == state
                } else if state.opened.contains(name@) {
                    opened == Err::<(), _>(GuestError::Invalid("resource writer is already open")) && final(self)@
                        == state
                } else {
                    opened is Ok && final(self)@ == (AttemptView { opened: state.opened.insert(name@), ..state })
                }
            }),
    {
        if !self.allows(name, Capability::Write) {
            return Err(GuestError::Invalid("writer capability is not declared"));
        }
        if let Some(connection) = connection {
            if !self.has_connection(connection) {
                return Err(GuestError::Invalid("writer capability is not declared"));
            }
        }
        assert(texts(self.connections@).len() == self.connections@.len());
        if self.connections.len() == 1 {
            assert(texts(self.connections@)[0] == self.connections@[0]@);
            match connection {
                Some(connection) => {
                    if !same_text(connection, self.connections[0].as_str()) {
                        return Err(GuestError::Invalid("writer capability is not declared"));
                    }
                },
                None => return Err(GuestError::Invalid("writer capability is not declared")),
            }
        }
        if self.opened_writers.contains(name) {
            return Err(GuestError::Invalid("resource writer is already open"));
        }
        let ghost before = self.opened_writers@;
        self.opened_writers.insert(name.to_owned(), ());
        assert(self.opened_writers@.dom() =~= before.dom().insert(name@));
        Ok(())
    }

    /// Decides whether the guest may read a resource.
    pub fn request_page(&self, name: &str) -> (granted: Result<(), GuestError>)
        requires
            self.wf(),
        ensures
            granted == if self@.permits(name@, Capability::Read) {
                Ok::<(), GuestError>(())
            } else {
                Err::<(), _>(GuestError::Invalid("reader capability is not declared"))
            },
    {
        if self.allows(name, Capability::Read) {
            Ok(())
        } else {
            Err(GuestError::Invalid("reader capability is not declared"))
        }
    }

    /// Notes the error of an adapter on a call.
    pub fn record_failure(&mut self, error: &HostError)
        requires
            old(self).wf(),
        ensures
            final(self).wf(),
            final(self)@ == old(self)@.noting(*error),
    {
        match error {
            HostError::Invalid(_) => {
                self.invalid = true;
            },
            HostError::TooLarge => {
                self.ceiling = true;
            },
            HostError::SourceUnreadable => {
                self.read_failure = true;
            },
            HostError::SourceRead(cause) => {
                self.read_failure = true;
                remember_cause(&mut self.read_cause, cause.as_str());
            },
            HostError::SourceWrite(cause) => {
                self.source_failure = true;
                remember_cause(&mut self.write_cause, cause.as_str());
            },
            _ => {},
        }
    }

    /// Admits a page that the adapter read: within the bounds, each item a JSON
    /// object that satisfies the schema. Its sources are lent to the attempt. A
    /// refused page lends nothing, and why it was refused is noted.
    pub fn admit_page(&mut self, name: &str, items: &Vec<ReadItem>) -> (admitted: Result<(), HostError>)
        requires
            old(self).wf(),
        ensures
            final(self).wf(),
            ({
                let state = old(self)@;
                let fault = if !state.schemas.dom().contains(name@) {
                    Some(HostError::Invalid("reader schema is missing"))
                } else if items@.len() > MAX_ITEMS {
                    Some(HostError::TooLarge)
                } else {
                    page_fault(items@, 0)
                };
                match fault {
                    Some(error) => admitted == Err::<(), _>(error) && final(self)@ == state.noting(error),
                    None => {
                        &&& admitted is Ok
                        &&& final(self)@ == (AttemptView { lent: final(self)@.lent, ..state })
                        &&& forall|id: Seq<char>| #[trigger]
                            final(self)@.lent.contains(id) <==> state.lent.contains(id) || page_refers(
                                items@,
                                state.schemas[name@],
                                items@.len() as int,
                                id,
                            )
                    },
                }
            }),
    {
        let ghost state = self@;
        let mut found: Table<()> = Table::new();
        let outcome = self.check_page(name, items, &mut found);
        match outcome {
            Err(error) => {
                self.record_failure(&error);
                Err(error)
            },
            Ok(_) => {
                let ghost referred = found@;
                let ghost before = self.lent_sources@;
                let mut index: usize = 0;
                while index < found.entries.len()
                    invariant
                        index <= found.entries.len(),
                        found@ == referred,
                        self.wf(),
                        self@ == (AttemptView { lent: self@.lent, ..state }),
                        forall|id: Seq<char>| #[trigger]
                            self.lent_sources@.dom().contains(id) <==> before.dom().contains(id) || exists|i: int|
                                0 <= i < index && (#[trigger] found.entries@[i]).0@ == id,
                    decreases found.entries.len() - index,
                {
                    self.lent_sources.insert(found.entries[index].0.clone(), ());
                    index += 1;
                }
                proof {
                    assert forall|id: Seq<char>| #[trigger] self@.lent.contains(id) <==> state.lent.contains(id)
                        || referred.dom().contains(id) by {
                        if referred.dom().contains(id) {
                            let at = found.names().index_of(id);
                            assert(found.names()[at] == id);
                            assert(found.entries@[at].0@ == id);
                        }
                        if exists|i: int| 0 <= i < found.entries@.len() && (#[trigger] found.entries@[i]).0@ == id {
                            let i = choose|i: int|
                                0 <= i < found.entries@.len() && (#[trigger] found.entries@[i]).0@ == id;
                            assert(found.names()[i] == id);
                        }
                    }
                }
                Ok(())
            },
        }
    }

    fn check_page(&self, name: &str, items: &Vec<ReadItem>, found: &mut Table<()>) -> (checked: Result<(), HostError>)
        requires
            self.wf(),
            old(found).wf(),
            old(found)@.dom() == Set::<Seq<char>>::empty(),
        ensures
            match checked {
                Err(error) => if !self@.schemas.dom().contains(name@) {
                    error == HostError::Invalid("reader schema is missing")
                } else if items@.len() > MAX_ITEMS {
                    error == HostError::TooLarge
                } else {
                    page_fault(items@, 0) == Some(error)
                },
                Ok(_) => {
                    &&& self@.schemas.dom().contains(name@) && items@.len() <= MAX_ITEMS
                    &&& page_fault(items@, 0) is None
                    &&& final(found).wf()
                    &&& forall|id: Seq<char>| #[trigger]
                        final(found)@.dom().contains(id) <==> page_refers(
                            items@,
                            self@.schemas[name@],
                            items@.len() as int,
                            id,
                        )
                },
            },
    {
        let schema = match self.schemas.get(name) {
            Some(schema) => schema,
            None => return Err(HostError::Invalid("reader schema is missing")),
        };
        if items.len() > MAX_ITEMS {
            return Err(HostError::TooLarge);
        }
        let mut bytes: usize = 0;
        let mut index: usize = 0;
        while index < items.len()
            invariant
                index <= items.len() <= MAX_ITEMS,
                bytes == page_bytes(items@, index as int),
                bytes <= MAX_BATCH_BYTES,
                page_fault(items@, 0) == page_fault(items@, index as int),
                self@.schemas.dom().contains(name@),
                found.wf(),
                forall|id: Seq<char>| #[trigger]
                    found@.dom().contains(id) <==> page_refers(items@, schema@, index as int, id),
            decreases items.len() - index,
        {
            let item = &items[index];
            let length = byte_len(item.text.as_str());
            if length > MAX_ITEM_BYTES || bytes + length > MAX_BATCH_BYTES {
                return Err(HostError::TooLarge);
            }
            bytes += length;
            let value = match &item.value {
                Some(value) => value,
                None => return Err(HostError::Invalid("read item is not a JSON object")),
            };
            if !item.conforms {
                return Err(HostError::Invalid("read item does not satisfy its schema"));
            }
            let ghost before = found@;
            collect_sources(schema, value, found);
            assert forall|id: Seq<char>| #[trigger] found@.dom().contains(id) <==> page_refers(
                items@,
                schema@,
                index + 1,
                id,
            ) by {
                assert(before.dom().contains(id) <==> page_refers(items@, schema@, index as int, id));
                if refers_to(schema@, value@, id) {
                    assert(items@[index as int].value == Some(*value));
                }
            }
            index += 1;
        }
        Ok(())
    }
}

/// How many bytes a source in `property` of a resource may have; `None` where the
/// property is no declared source.
pub open spec fn source_bound(state: AttemptView, name: Seq<char>, property: Seq<char>) -> Option<u64> {
    if !state.schemas.dom().contains(name) {
        None
    } else {
        match declared_schema(state.schemas[name], property) {
            Some(schema) => if is_source_schema(schema) {
                match number_in(member(schema, "maxBytes"@)) {
                    Some(maximum) => Some(maximum),
                    None => Some(MAX_SOURCE_BYTES),
                }
            } else {
                None
            },
            None => None,
        }
    }
}

impl Attempt {
    /// Takes an item of a batch in, and returns it without the issued tokens.
    ///
    /// `parsed` is the value of `text`, where it is a strict JSON object. The value
    /// that comes back is the one to hold against the schema.
    pub fn receive_item(&mut self, batch: &mut Batch, text: &str, parsed: Option<Json>) -> (received: Result<
        Json,
        GuestError,
    >)
        requires
            old(self).wf(),
            old(batch).wf(),
        ensures
            final(self).wf(),
            final(batch).wf(),
            final(batch).staged == old(batch).staged,
            final(batch).staged_bytes == old(batch).staged_bytes,
            ({
                let state = old(self)@;
                let total = old(batch).bytes + byte_count(text@);
                if old(batch).staged@.len() >= MAX_ITEMS || byte_count(text@) > MAX_ITEM_BYTES || total
                    > MAX_BATCH_BYTES {
                    received == Err::<Json, _>(GuestError::TooLarge) && final(self)@ == (AttemptView {
                        ceiling: true,
                        ..state
                    })
                } else {
                    let clean = match parsed {
                        Some(value) => redacted_value(value@, longest_first(state.tokens)),
                        None => None,
                    };
                    match clean {
                        None => received == Err::<Json, _>(
                            GuestError::Invalid("item does not satisfy its schema"),
                        ) && final(self)@ == (AttemptView { invalid: true, ..state }),
                        Some(value) => received is Ok && received->Ok_0@ == value && final(self)@ == state
                            && final(batch).bytes == total,
                    }
                }
            }),
    {
        let length = byte_len(text);
        if batch.staged.len() >= MAX_ITEMS || length > MAX_ITEM_BYTES || batch.bytes + length > MAX_BATCH_BYTES {
            self.ceiling = true;
            return Err(GuestError::TooLarge);
        }
        let clean = match &parsed {
            Some(value) => redact_value(value, &order_tokens(&self.tokens)),
            None => None,
        };
        match clean {
            Some(value) => {
                batch.bytes += length;
                Ok(value)
            },
            None => {
                self.invalid = true;
                Err(GuestError::Invalid("item does not satisfy its schema"))
            },
        }
    }

    /// Stages a redacted item that satisfies the schema of its resource and refers
    /// to sources of this attempt only.
    pub fn stage_item(&mut self, batch: &mut Batch, name: &str, value: &Json, conforms: bool) -> (staged: Result<
        (),
        GuestError,
    >)
        requires
            old(self).wf(),
            old(batch).wf(),
            old(batch).staged@.len() < MAX_ITEMS,
            old(self)@.permits(name@, Capability::Write),
        ensures
            final(self).wf(),
            final(batch).wf(),
            final(batch).bytes == old(batch).bytes,
            ({
                let state = old(self)@;
                let text = json_text(value@);
                let total = old(batch).staged_bytes + byte_count(text);
                if !conforms {
                    staged == Err::<(), _>(GuestError::Invalid("item does not satisfy its schema")) && final(self)@
                        == (AttemptView { invalid: true, ..state }) && *final(batch) == *old(batch)
                } else if exists|id: Seq<char>| #[trigger]
                    refers_to(state.schemas[name@], value@, id) && !state.lent.contains(id) {
                    staged == Err::<(), _>(GuestError::Invalid("item source was not lent to this attempt"))
                        && final(self)@ == (AttemptView { invalid: true, ..state }) && *final(batch) == *old(batch)
                } else if byte_count(text) > MAX_ITEM_BYTES || total > MAX_BATCH_BYTES {
                    staged == Err::<(), _>(GuestError::TooLarge) && final(self)@ == (AttemptView {
                        ceiling: true,
                        ..state
                    }) && *final(batch) == *old(batch)
                } else {
                    staged is Ok && final(self)@ == state && final(batch).staged_bytes == total && texts(
                        final(batch).staged@,
                    ) == texts(old(batch).staged@).push(text)
                }
            }),
    {
        if !conforms {
            self.invalid = true;
            return Err(GuestError::Invalid("item does not satisfy its schema"));
        }
        let mut ids: Table<()> = Table::new();
        match self.schemas.get(name) {
            Some(schema) => {
                collect_sources(schema, value, &mut ids);
            },
            None => {},
        }
        let ghost schema = self@.schemas[name@];
        let mut index: usize = 0;
        while index < ids.entries.len()
            invariant
                index <= ids.entries.len(),
                self.wf(),
                self@ == old(self)@,
                *batch == *old(batch),
                batch.wf(),
                conforms,
                schema == old(self)@.schemas[name@],
                ids.wf(),
                forall|id: Seq<char>| #[trigger] ids@.dom().contains(id) <==> refers_to(schema, value@, id),
                forall|i: int| 0 <= i < index ==> self@.lent.contains((#[trigger] ids.entries@[i]).0@),
            decreases ids.entries.len() - index,
        {
            if !self.lent_sources.contains(ids.entries[index].0.as_str()) {
                proof {
                    ids.lemma_entry(index as int);
                    let id = ids.entries@[index as int].0@;
                    assert(refers_to(schema, value@, id) && !self@.lent.contains(id));
                }
                self.invalid = true;
                return Err(GuestError::Invalid("item source was not lent to this attempt"));
            }
            index += 1;
        }
        proof {
            assert forall|id: Seq<char>| #[trigger] refers_to(schema, value@, id) implies self@.lent.contains(id) by {
                assert(ids@.dom().contains(id));
                let at = ids.names().index_of(id);
                assert(ids.names()[at] == id);
                assert(ids.entries@[at].0@ == id);
            }
        }
        self.stage_text(batch, write_json(value))
    }

    /// Stages the text of an item that was accepted, within the bounds of a batch.
    pub fn stage_text(&mut self, batch: &mut Batch, text: String) -> (staged: Result<(), GuestError>)
        requires
            old(self).wf(),
            old(batch).wf(),
            old(batch).staged@.len() < MAX_ITEMS,
        ensures
            final(self).wf(),
            final(batch).wf(),
            final(batch).bytes == old(batch).bytes,
            ({
                let total = old(batch).staged_bytes + byte_count(text@);
                if byte_count(text@) > MAX_ITEM_BYTES || total > MAX_BATCH_BYTES {
                    staged == Err::<(), _>(GuestError::TooLarge) && final(self)@ == (AttemptView {
                        ceiling: true,
                        ..old(self)@
                    }) && *final(batch) == *old(batch)
                } else {
                    staged is Ok && final(self)@ == old(self)@ && final(batch).staged_bytes == total && texts(
                        final(batch).staged@,
                    ) == texts(old(batch).staged@).push(text@)
                }
            }),
    {
        let length = byte_len(text.as_str());
        if length > MAX_ITEM_BYTES || batch.staged_bytes + length > MAX_BATCH_BYTES {
            self.ceiling = true;
            return Err(GuestError::TooLarge);
        }
        batch.staged_bytes += length;
        let ghost before = batch.staged@;
        let ghost words = text@;
        batch.staged.push(text);
        assert(texts(batch.staged@) =~= texts(before).push(words));
        Ok(())
    }

    /// Checks a checkpoint's cursor and returns the one to persist: none where the
    /// action reads resources.
    pub fn checkpoint_cursor<'a>(&mut self, cursor: &'a str) -> (persisted: Result<&'a str, GuestError>)
        requires
            old(self).wf(),
        ensures
            final(self).wf(),
            if byte_count(cursor@) > MAX_CURSOR_BYTES {
                persisted == Err::<&str, _>(GuestError::TooLarge) && final(self)@ == (AttemptView {
                    ceiling: true,
                    ..old(self)@
                })
            } else {
                &&& final(self)@ == old(self)@
                &&& persisted matches Ok(persisted) && persisted@ == (if old(self)@.has_reader {
                    ""@
                } else {
                    cursor@
                })
            },
    {
        if byte_len(cursor) > MAX_CURSOR_BYTES {
            self.ceiling = true;
            return Err(GuestError::TooLarge);
        }
        if self.has_reader {
            Ok("")
        } else {
            Ok(cursor)
        }
    }

    /// Starts a produced source and returns how many bytes it may have.
    ///
    /// `property_valid` and `filename_valid` are what the rules for direct property
    /// names and for filenames say.
    pub fn begin_source(&mut self, name: &str, property: &str, property_valid: bool, filename_valid: bool) -> (bound: Result<
        u64,
        GuestError,
    >)
        requires
            old(self).wf(),
            old(self).pending_sources < usize::MAX,
        ensures
            final(self).wf(),
            ({
                let state = old(self)@;
                let declared = source_bound(state, name@, property@);
                if !property_valid || declared is None {
                    bound == Err::<u64, _>(GuestError::Invalid("source property is not declared")) && final(self)@
                        == (AttemptView { source_failure: true, ..state })
                } else if !filename_valid {
                    bound == Err::<u64, _>(GuestError::Invalid("source filename is invalid")) && final(self)@ == (
                    AttemptView { source_failure: true, ..state })
                } else {
                    bound == Ok::<_, GuestError>(declared->0) && final(self)@ == (AttemptView {
                        pending: state.pending + 1,
                        ..state
                    })
                }
            }),
    {
        let mut declared: Option<u64> = None;
        if property_valid {
            if let Some(schema) = self.schemas.get(name) {
                if let Some(child) = find_declared(schema, property) {
                    if source_schema(child) {
                        declared = match child.get_number("maxBytes") {
                            Some(maximum) => Some(maximum),
                            None => Some(MAX_SOURCE_BYTES),
                        };
                    }
                }
            }
        }
        match declared {
            None => {
                self.source_failure = true;
                Err(GuestError::Invalid("source property is not declared"))
            },
            Some(bound) => {
                if !filename_valid {
                    self.source_failure = true;
                    return Err(GuestError::Invalid("source filename is invalid"));
                }
                self.pending_sources += 1;
                Ok(bound)
            },
        }
    }

    /// Notes how a produced source ended. Excess or a failed stream overrides what
    /// the adapter reports, except the cause of a failed write. A sealed source is
    /// lent to the attempt.
    pub fn finish_source(&mut self, result: Result<String, HostError>, exceeded: bool, failed: bool) -> (sealed: Result<
        String,
        HostError,
    >)
        requires
            old(self).wf(),
            old(self).pending_sources > 0,
        ensures
            final(self).wf(),
            sealed == if exceeded {
                Err::<String, _>(HostError::TooLarge)
            } else if failed && !(result matches Err(HostError::SourceWrite(_))) {
                Err::<String, _>(HostError::Unavailable)
            } else {
                result
            },
            ({
                let state = AttemptView { pending: (old(self)@.pending - 1) as nat, ..old(self)@ };
                match sealed {
                    Ok(id) => final(self)@ == (AttemptView { lent: state.lent.insert(id@), ..state }),
                    Err(error) => final(self)@ == (AttemptView { source_failure: true, ..state.noting(error) }),
                }
            }),
    {
        let sealed: Result<String, HostError> = if exceeded {
            Err(HostError::TooLarge)
        } else if failed {
            match result {
                Err(HostError::SourceWrite(cause)) => Err(HostError::SourceWrite(cause)),
                _ => Err(HostError::Unavailable),
            }
        } else {
            result
        };
        self.pending_sources -= 1;
        match &sealed {
            Ok(id) => {
                let ghost before = self.lent_sources@;
                self.lent_sources.insert(id.clone(), ());
                assert(self.lent_sources@.dom() =~= before.dom().insert(id@));
            },
            Err(error) => {
                self.record_failure(error);
                self.source_failure = true;
            },
        }
        sealed
    }

    /// Notes that a produced source was dropped before it ended.
    pub fn abandon_source(&mut self)
        requires
            old(self).wf(),
            old(self).pending_sources > 0,
        ensures
            final(self).wf(),
            final(self)@ == (AttemptView {
                pending: (old(self)@.pending - 1) as nat,
                source_failure: true,
                ..old(self)@
            }),
    {
        self.source_failure = true;
        self.pending_sources -= 1;
    }
}

/// How the guest's call ended.
pub enum GuestOutcome {
    /// The action returned.
    Returned(Result<(), Failure>),
    /// The guest trapped, with this message.
    Trapped(String),
    /// The engine failed, with this message.
    Failed(String),
}

/// A failure without the issued tokens, cut to the line limit.
pub open spec fn clean_failure(failure: FailureView, tokens: Seq<Seq<char>>) -> FailureView {
    match failure {
        FailureView::InvalidParameters(message) => FailureView::InvalidParameters(clean_line(message, tokens)),
        FailureView::NotConnected(message) => FailureView::NotConnected(clean_line(message, tokens)),
        FailureView::Rejected(message) => FailureView::Rejected(clean_line(message, tokens)),
        FailureView::Internal(message) => FailureView::Internal(clean_line(message, tokens)),
        FailureView::Unavailable(message, not_before) => FailureView::Unavailable(
            clean_line(message, tokens),
            not_before,
        ),
    }
}

/// Takes the issued tokens out of a failure and cuts it to the line limit.
pub fn redact_failure(failure: Failure, tokens: &Vec<String>) -> (clean_one: Failure)
    ensures
        clean_one@ == clean_failure(failure@, texts(tokens@)),
{
    match failure {
        Failure::InvalidParameters(message) => Failure::InvalidParameters(clean(message.as_str(), tokens)),
        Failure::NotConnected(message) => Failure::NotConnected(clean(message.as_str(), tokens)),
        Failure::Rejected(message) => Failure::Rejected(clean(message.as_str(), tokens)),
        Failure::Internal(message) => Failure::Internal(clean(message.as_str(), tokens)),
        Failure::Unavailable(retry) => Failure::Unavailable(
            Retry { message: clean(retry.message.as_str(), tokens), not_before: retry.not_before },
        ),
    }
}

/// How an attempt ended.
pub ghost enum Ending {
    Succeeded,
    Failed(FailureView),
    Deadline,
    Stopped,
    SourceRead(Seq<char>),
    SourceUnreadable,
    LimitExceeded,
    SourceWrite(Seq<char>),
    SourceFailed,
    Trapped(Seq<char>),
    Runtime(Seq<char>),
    ItemInvalid,
    Other,
}

/// The ending that a result of an attempt reports.
pub open spec fn ending(result: Result<Result<(), Failure>, ExecutionError>) -> Ending {
    match result {
        Ok(Ok(_)) => Ending::Succeeded,
        Ok(Err(failure)) => Ending::Failed(failure@),
        Err(ExecutionError::Deadline) => Ending::Deadline,
        Err(ExecutionError::Stopped) => Ending::Stopped,
        Err(ExecutionError::SourceRead(cause)) => Ending::SourceRead(cause@),
        Err(ExecutionError::SourceUnreadable) => Ending::SourceUnreadable,
        Err(ExecutionError::LimitExceeded) => Ending::LimitExceeded,
        Err(ExecutionError::Host(HostError::SourceWrite(cause))) => Ending::SourceWrite(cause@),
        Err(ExecutionError::SourceFailed) => Ending::SourceFailed,
        Err(ExecutionError::Trapped(message)) => Ending::Trapped(message@),
        Err(ExecutionError::Runtime(message)) => Ending::Runtime(message@),
        Err(ExecutionError::ItemInvalid) => Ending::ItemInvalid,
        Err(_) => Ending::Other,
    }
}

/// How an attempt ends whose guest ended so. Failed source reads come first, then
/// failed or unfinished source writes, then what the guest itself reports.
pub open spec fn settled(state: AttemptView, outcome: GuestOutcome, limits_exceeded: bool) -> Ending {
    if state.read_failure {
        match state.read_cause {
            Some(cause) => Ending::SourceRead(cause),
            None => Ending::SourceUnreadable,
        }
    } else if state.source_failure || state.pending != 0 {
        if state.ceiling {
            Ending::LimitExceeded
        } else {
            match state.write_cause {
                Some(cause) => Ending::SourceWrite(cause),
                None => Ending::SourceFailed,
            }
        }
    } else {
        match outcome {
            GuestOutcome::Trapped(message) => if limits_exceeded {
                Ending::LimitExceeded
            } else {
                Ending::Trapped(message@)
            },
            GuestOutcome::Failed(message) => if limits_exceeded {
                Ending::LimitExceeded
            } else {
                Ending::Runtime(message@)
            },
            GuestOutcome::Returned(Ok(_)) => Ending::Succeeded,
            GuestOutcome::Returned(Err(failure)) => if failure is Internal && state.invalid {
                Ending::ItemInvalid
            } else if failure is Internal && state.ceiling {
                Ending::LimitExceeded
            } else {
                Ending::Failed(clean_failure(failure@, state.tokens))
            },
        }
    }
}

impl Attempt {
    /// Decides how an attempt ends whose guest ended so. `expired` is why the
    /// attempt had ended by then, if it had.
    pub fn settle(&self, expired: Option<ExecutionError>, outcome: GuestOutcome, limits_exceeded: bool) -> (result: Result<
        Result<(), Failure>,
        ExecutionError,
    >)
        ensures
            match expired {
                Some(error) => result == Err::<Result<(), Failure>, _>(error),
                None => ending(result) == settled(self@, outcome, limits_exceeded) && !(ending(result) is Other),
            },
    {
        if let Some(error) = expired {
            return Err(error);
        }
        if self.read_failure {
            return match &self.read_cause {
                Some(cause) => Err(ExecutionError::SourceRead(cause.clone())),
                None => Err(ExecutionError::SourceUnreadable),
            };
        }
        if self.source_failure || self.pending_sources != 0 {
            if self.ceiling {
                return Err(ExecutionError::LimitExceeded);
            }
            return match &self.write_cause {
                Some(cause) => Err(ExecutionError::Host(HostError::SourceWrite(cause.clone()))),
                None => Err(ExecutionError::SourceFailed),
            };
        }
        match outcome {
            GuestOutcome::Trapped(message) => {
                if limits_exceeded {
                    Err(ExecutionError::LimitExceeded)
                } else {
                    Err(ExecutionError::Trapped(message))
                }
            },
            GuestOutcome::Failed(message) => {
                if limits_exceeded {
                    Err(ExecutionError::LimitExceeded)
                } else {
                    Err(ExecutionError::Runtime(message))
                }
            },
            GuestOutcome::Returned(Ok(_)) => Ok(Ok(())),
            GuestOutcome::Returned(Err(failure)) => {
                if let Failure::Internal(_) = &failure {
                    if self.invalid {
                        return Err(ExecutionError::ItemInvalid);
                    }
                    if self.ceiling {
                        return Err(ExecutionError::LimitExceeded);
                    }
                }
                Ok(Err(redact_failure(failure, &self.tokens)))
            },
        }
    }
}

/// Decides the result of a successful guest once the adapter has finished. A
/// deadline that has passed by then overrides its success.
pub fn finish_attempt(finished: Result<(), HostError>, expired: Option<ExecutionError>) -> (result: Result<
    (),
    ExecutionError,
>)
    ensures
        result == match finished {
            Err(error) => Err::<(), _>(ExecutionError::Host(error)),
            Ok(_) => match expired {
                Some(error) => Err::<(), _>(error),
                None => Ok::<(), ExecutionError>(()),
            },
        },
{
    match finished {
        Err(error) => Err(ExecutionError::Host(error)),
        Ok(_) => match expired {
            Some(error) => Err(error),
            None => Ok(()),
        },
    }
}

/// An attempt succeeds only where no source failed or was left unfinished,
/// whatever the guest makes of it.
pub proof fn law_ignored_source_failures_prevent_success(
    state: AttemptView,
    outcome: GuestOutcome,
    limits_exceeded: bool,
)
    requires
        settled(state, outcome, limits_exceeded) is Succeeded,
    ensures
        !state.read_failure,
        !state.source_failure,
        state.pending == 0,
        outcome matches GuestOutcome::Returned(Ok(_)),
{
}

/// No failure that an attempt reports holds a token issued in it.
pub proof fn law_failures_hold_no_token(failure: FailureView, tokens: Seq<Seq<char>>, token: Seq<char>)
    requires
        tokens.contains(token),
        token.len() > 0,
    ensures
        match clean_failure(failure, tokens) {
            FailureView::InvalidParameters(message) => !occurs(message, token),
            FailureView::NotConnected(message) => !occurs(message, token),
            FailureView::Rejected(message) => !occurs(message, token),
            FailureView::Internal(message) => !occurs(message, token),
            FailureView::Unavailable(message, _) => !occurs(message, token),
        },
{
    let message = match failure {
        FailureView::InvalidParameters(message) => message,
        FailureView::NotConnected(message) => message,
        FailureView::Rejected(message) => message,
        FailureView::Internal(message) => message,
        FailureView::Unavailable(message, _) => message,
    };
    law_no_line_holds_a_token(message, tokens, token);
}

fn copy_capabilities(table: &Table<Vec<Capability>>) -> (copied: Table<Vec<Capability>>)
    requires
        table.wf(),
    ensures
        copied.wf(),
        copied@.map_values(|capabilities: Vec<Capability>| capabilities@) == table@.map_values(
            |capabilities: Vec<Capability>| capabilities@,
        ),
        copied@.dom() == table@.dom(),
{
    let mut entries: Vec<(String, Vec<Capability>)> = Vec::new();
    let mut index: usize = 0;
    while index < table.entries.len()
        invariant
            index <= table.entries.len(),
            entries@.len() == index,
            forall|i: int|
                0 <= i < index ==> (#[trigger] entries@[i]).0@ == table.entries@[i].0@ && entries@[i].1@
                    == table.entries@[i].1@,
        decreases table.entries.len() - index,
    {
        let entry = &table.entries[index];
        entries.push((entry.0.clone(), vstd::slice::slice_to_vec(entry.1.as_slice())));
        index += 1;
    }
    let copied = Table { entries };
    proof {
        assert(copied.names() =~= table.names());
        assert(copied@.dom() =~= table@.dom());
        let shown = |capabilities: Vec<Capability>| capabilities@;
        assert forall|name: Seq<char>| #[trigger] copied@.dom().contains(name) implies copied@[name]@ == table@[name]@ by {
            let at = copied.names().index_of(name);
            assert(copied.names()[at] == name);
            copied.lemma_entry(at);
            table.lemma_entry(at);
        }
        assert(copied@.map_values(shown) =~= table@.map_values(shown));
    }
    copied
}

fn copy_schemas(resources: &Table<Resource>) -> (schemas: Table<Json>)
    requires
        resources.wf(),
    ensures
        schemas.wf(),
        schemas@.dom() == resources@.dom(),
        forall|name: Seq<char>| #[trigger]
            resources@.dom().contains(name) ==> schemas@[name]@ == resources@[name].schema@,
{
    let mut entries: Vec<(String, Json)> = Vec::new();
    let mut index: usize = 0;
    while index < resources.entries.len()
        invariant
            index <= resources.entries.len(),
            entries@.len() == index,
            forall|i: int|
                0 <= i < index ==> (#[trigger] entries@[i]).0@ == resources.entries@[i].0@ && entries@[i].1@
                    == resources.entries@[i].1.schema@,
        decreases resources.entries.len() - index,
    {
        let entry = &resources.entries[index];
        entries.push((entry.0.clone(), entry.1.schema.copy()));
        index += 1;
    }
    let schemas = Table { entries };
    proof {
        assert(schemas.names() =~= resources.names());
        assert(schemas@.dom() =~= resources@.dom());
        assert forall|name: Seq<char>| #[trigger] resources@.dom().contains(name) implies schemas@[name]@
            == resources@[name].schema@ by {
            let at = resources.names().index_of(name);
            assert(resources.names()[at] == name);
            schemas.lemma_entry(at);
            resources.lemma_entry(at);
        }
    }
    schemas
}

/// Returns equal texts.
pub fn copy_texts(list: &Vec<String>) -> (copied: Vec<String>)
    ensures
        texts(copied@) == texts(list@),
{
    let mut copied: Vec<String> = Vec::new();
    let mut index: usize = 0;
    while index < list.len()
        invariant
            index <= list.len(),
            copied@.len() == index,
            forall|i: int| 0 <= i < index ==> (#[trigger] copied@[i])@ == list@[i]@,
        decreases list.len() - index,
    {
        copied.push(list[index].clone());
        index += 1;
    }
    assert(texts(copied@) =~= texts(list@));
    copied
}

/// What an attempt of an action starts with: the connections and resources of the
/// action, the schemas of all resources, and the sources that the request lends.
pub open spec fn starts_with(state: AttemptView, manifest: Manifest, action: Option<Action>, sources: Seq<Source>) -> bool {
    &&& state.connections == match action {
        Some(action) => texts(action.connections@),
        None => Seq::empty(),
    }
    &&& state.resources == match action {
        Some(action) => action.resources@.map_values(|capabilities: Vec<Capability>| capabilities@),
        None => Map::empty(),
    }
    &&& state.schemas == manifest.resources@.map_values(|resource: Resource| resource.schema@)
    &&& forall|id: Seq<char>| #[trigger] state.lent.contains(id) <==> lends(sources, id)
    &&& state.has_reader == (action matches Some(action) && action.reads())
    &&& state.opened == Set::<Seq<char>>::empty()
    &&& state.tokens == Seq::<Seq<char>>::empty()
    &&& state.budget == (LogBudget { bytes: 0, dropped: false })
    &&& !state.source_failure && !state.read_failure && state.read_cause is None && state.write_cause is None
    &&& state.pending == 0 && !state.invalid && !state.ceiling
}

impl Attempt {
    /// Grants an attempt what the requested action declares; an attempt without a
    /// request is granted nothing.
    pub fn new(manifest: &Manifest, request: Option<&Request>) -> (attempt: Attempt)
        requires
            manifest.wf(),
        ensures
            attempt.wf(),
            match request {
                None => starts_with(attempt@, *manifest, None, Seq::empty()),
                Some(request) => starts_with(
                    attempt@,
                    *manifest,
                    if manifest.actions@.dom().contains(request.action@) {
                        Some(manifest.actions@[request.action@])
                    } else {
                        None
                    },
                    request.sources@,
                ),
            },
    {
        let mut connections: Vec<String> = Vec::new();
        let mut resources: Table<Vec<Capability>> = Table::new();
        let mut has_reader = false;
        let mut lent: Table<()> = Table::new();
        assert(texts(connections@) =~= Seq::empty());
        assert(resources@.map_values(|capabilities: Vec<Capability>| capabilities@) =~= Map::empty());
        if let Some(request) = request {
            if let Some(found) = manifest.actions.get(request.action.as_str()) {
                assert(manifest.declares(*found));
                connections = copy_texts(&found.connections);
                resources = copy_capabilities(&found.resources);
                has_reader = found.has_reader();
            }
            let mut index: usize = 0;
            while index < request.sources.len()
                invariant
                    index <= request.sources.len(),
                    lent.wf(),
                    forall|id: Seq<char>| #[trigger]
                        lent@.dom().contains(id) <==> exists|i: int|
                            0 <= i < index && (#[trigger] request.sources@[i]).id@ == id,
                decreases request.sources.len() - index,
            {
                lent.insert(request.sources[index].id.clone(), ());
                index += 1;
            }
        }
        let attempt = Attempt {
            connections,
            resources,
            schemas: copy_schemas(&manifest.resources),
            opened_writers: Table::new(),
            lent_sources: lent,
            has_reader,
            tokens: Vec::new(),
            budget: LogBudget::new(),
            source_failure: false,
            read_failure: false,
            read_cause: None,
            write_cause: None,
            pending_sources: 0,
            invalid: false,
            ceiling: false,
        };
        proof {
            assert(attempt@.tokens =~= Seq::empty());
            assert(attempt@.opened =~= Set::empty());
            assert(attempt@.schemas =~= manifest.resources@.map_values(
                |resource: Resource| resource.schema@,
            ));
        }
        attempt
    }
}

/// An attempt succeeds exactly where its guest returned a success, nothing that it read or
/// wrote has failed, and no source is left unfinished.
pub proof fn law_attempts_succeed(state: AttemptView, outcome: GuestOutcome, limits_exceeded: bool)
    ensures
        settled(state, outcome, limits_exceeded) == Ending::Succeeded <==> !state.read_failure && !state.source_failure
            && state.pending == 0 && (outcome matches GuestOutcome::Returned(returned) && returned is Ok),
{
}

/// A failure that the guest returned is what the attempt ends with, of the same kind, unless a
/// source failed, or it is an internal failure after an item or a ceiling was the reason. Its
/// message stays as it is where it holds no token and fits a line.
pub proof fn law_returned_failures_are_kept(state: AttemptView, failure: Failure, limits_exceeded: bool)
    requires
        !state.read_failure,
        !state.source_failure,
        state.pending == 0,
        !(failure is Internal) || (!state.invalid && !state.ceiling),
    ensures
        settled(state, GuestOutcome::Returned(Err(failure)), limits_exceeded) matches Ending::Failed(kept) && {
            &&& kept is InvalidParameters <==> failure is InvalidParameters
            &&& kept is NotConnected <==> failure is NotConnected
            &&& kept is Rejected <==> failure is Rejected
            &&& kept is Internal <==> failure is Internal
            &&& kept is Unavailable <==> failure is Unavailable
            &&& failure matches Failure::Unavailable(retry) ==> (kept matches FailureView::Unavailable(_, not_before)
                && not_before == retry.not_before)
            &&& byte_count(message_of(failure@)) <= 4096 && (forall|i: int|
                0 <= i < state.tokens.len() ==> !occurs(message_of(failure@), #[trigger] state.tokens[i])) ==> kept
                == failure@
        },
{
    if byte_count(message_of(failure@)) <= 4096 && (forall|i: int|
        0 <= i < state.tokens.len() ==> !occurs(message_of(failure@), #[trigger] state.tokens[i])) {
        law_clean_lines_are_kept(message_of(failure@), state.tokens);
    }
}

/// What a failure says.
pub open spec fn message_of(failure: FailureView) -> Seq<char> {
    match failure {
        FailureView::InvalidParameters(message) => message,
        FailureView::NotConnected(message) => message,
        FailureView::Rejected(message) => message,
        FailureView::Internal(message) => message,
        FailureView::Unavailable(message, _) => message,
    }
}

/// A guest that trapped or did not run ends its attempt so, or with the limit that it exceeded;
/// an internal failure is told as the refused item or the ceiling behind it.
pub proof fn law_other_endings(state: AttemptView, outcome: GuestOutcome, limits_exceeded: bool)
    requires
        !state.read_failure,
        !state.source_failure,
        state.pending == 0,
    ensures
        outcome matches GuestOutcome::Trapped(message) ==> settled(state, outcome, limits_exceeded) == if limits_exceeded {
            Ending::LimitExceeded
        } else {
            Ending::Trapped(message@)
        },
        outcome matches GuestOutcome::Failed(message) ==> settled(state, outcome, limits_exceeded) == if limits_exceeded {
            Ending::LimitExceeded
        } else {
            Ending::Runtime(message@)
        },
        outcome matches GuestOutcome::Returned(Err(failure)) ==> (failure is Internal && state.invalid ==> settled(
            state,
            outcome,
            limits_exceeded,
        ) == Ending::ItemInvalid),
        outcome matches GuestOutcome::Returned(Err(failure)) ==> (failure is Internal && !state.invalid && state.ceiling
            ==> settled(state, outcome, limits_exceeded) == Ending::LimitExceeded),
{
}

/// A source that could not be read ends its attempt with the first cause, whatever the guest
/// returned; so does one that could not be written, where all could be read.
pub proof fn law_source_failures_end_the_attempt(state: AttemptView, outcome: GuestOutcome, limits_exceeded: bool)
    ensures
        state.read_failure ==> settled(state, outcome, limits_exceeded) == match state.read_cause {
            Some(cause) => Ending::SourceRead(cause),
            None => Ending::SourceUnreadable,
        },
        !state.read_failure && (state.source_failure || state.pending > 0) ==> settled(state, outcome, limits_exceeded)
            == if state.ceiling {
            Ending::LimitExceeded
        } else {
            match state.write_cause {
                Some(cause) => Ending::SourceWrite(cause),
                None => Ending::SourceFailed,
            }
        },
{
}

/// A failed call is noted by its kind, and a cause only where none was noted before; nothing
/// else changes.
pub proof fn law_failures_are_noted(state: AttemptView, error: HostError)
    ensures
        ({
            let after = state.noting(error);
            &&& after.invalid <==> state.invalid || error is Invalid
            &&& after.ceiling <==> state.ceiling || error is TooLarge
            &&& after.read_failure <==> state.read_failure || error is SourceUnreadable || error is SourceRead
            &&& after.source_failure <==> state.source_failure || error is SourceWrite
            &&& state.read_cause is Some ==> after.read_cause == state.read_cause
            &&& state.write_cause is Some ==> after.write_cause == state.write_cause
            &&& state.read_cause is None ==> after.read_cause == match error {
                HostError::SourceRead(cause) => Some(cause@),
                _ => None,
            }
            &&& state.write_cause is None ==> after.write_cause == match error {
                HostError::SourceWrite(cause) => Some(cause@),
                _ => None,
            }
            &&& after.tokens == state.tokens && after.lent == state.lent && after.opened == state.opened && after.pending
                == state.pending && after.budget == state.budget && after.resources == state.resources && after.connections
                == state.connections && after.schemas == state.schemas && after.has_reader == state.has_reader
        }),
{
}

/// A page is admitted exactly where each of its items is an object that satisfies its schema,
/// none is too long, and together they fit a batch.
pub proof fn law_pages_are_admitted(items: Seq<ReadItem>, index: int)
    requires
        0 <= index <= items.len(),
    ensures
        page_fault(items, index) is None <==> forall|i: int|
            index <= i < items.len() ==> byte_count((#[trigger] items[i]).text@) <= MAX_ITEM_BYTES && page_bytes(items, i + 1)
                <= MAX_BATCH_BYTES && items[i].value is Some && items[i].conforms,
    decreases items.len() - index,
{
    if index < items.len() {
        law_pages_are_admitted(items, index + 1);
    }
}

/// The bytes of a page are those of its items, one after the other.
pub proof fn law_page_bytes(items: Seq<ReadItem>, count: int)
    requires
        0 <= count <= items.len(),
    ensures
        page_bytes(items, 0) == 0,
        count < items.len() ==> page_bytes(items, count + 1) - page_bytes(items, count) == byte_count(items[count].text@),
        page_bytes(items, count) >= 0,
    decreases count,
{
    if count > 0 {
        law_page_bytes(items, count - 1);
    }
}

/// A source may be produced for a property exactly where the resource declares it as one, and
/// then with as many bytes as it says, or as any source may have.
pub proof fn law_produced_sources_are_bounded(state: AttemptView, name: Seq<char>, property: Seq<char>)
    ensures
        source_bound(state, name, property) is Some <==> state.schemas.dom().contains(name) && (declared_schema(
            state.schemas[name],
            property,
        ) matches Some(schema) && is_source_schema(schema)),
        source_bound(state, name, property) matches Some(bound) ==> bound == match number_in(
            member(declared_schema(state.schemas[name], property)->0, "maxBytes"@),
        ) {
            Some(maximum) => maximum,
            None => MAX_SOURCE_BYTES,
        },
{
}

/// An attempt may do what its action declares, and nothing else: it has no token, has opened
/// nothing, and was lent the sources of its request alone.
pub proof fn law_attempts_start_with_their_grants(
    state: AttemptView,
    manifest: Manifest,
    action: Action,
    sources: Seq<Source>,
    resource: Seq<char>,
    capability: Capability,
    id: Seq<char>,
)
    requires
        starts_with(state, manifest, Some(action), sources),
    ensures
        state.permits(resource, capability) <==> action.permits(resource, capability),
        state.connects(id) <==> texts(action.connections@).contains(id),
        state.lent.contains(id) <==> exists|i: int| 0 <= i < sources.len() && (#[trigger] sources[i]).id@ == id,
        state.tokens.len() == 0,
        !state.opened.contains(id),
        state.pending == 0 && !state.read_failure && !state.source_failure && !state.invalid && !state.ceiling,
        state.budget.bytes == 0 && !state.budget.dropped,
{
}

/// An attempt knows the schema of every resource of its manifest, whether it reads, and no
/// cause of a failure when it starts; without an action it has no grants.
pub proof fn law_attempts_start_from_the_manifest(
    state: AttemptView,
    manifest: Manifest,
    action: Option<Action>,
    sources: Seq<Source>,
    resource: Seq<char>,
)
    requires
        starts_with(state, manifest, action, sources),
    ensures
        state.schemas.dom().contains(resource) <==> manifest.resources@.dom().contains(resource),
        manifest.resources@.dom().contains(resource) ==> state.schemas[resource] == manifest.resources@[resource].schema@,
        state.has_reader <==> action is Some && action->0.reads(),
        state.read_cause is None && state.write_cause is None,
        action is None ==> state.connections.len() == 0 && !state.resources.dom().contains(resource),
{
}

} // verus!

//! Sources of a local run: sealing produced ones and observing what is read.

use vstd::prelude::*;
use vstd::string::*;

use crate::host::HostError;
use crate::identity::{hex, hex_character, hex_of};
use crate::inputs::{admits_source, source_allowed, LocalSource, LocalSourceView};
use crate::json::{member, number_in, Json, JsonValue};
use crate::manifest::Capability;
use crate::primitives::{random_id, sha256, sha256_of};
use crate::sources::{declared_schema, find_declared, is_source_schema, source_schema, MAX_SOURCE_BYTES};
use crate::store::{Phase, SourceRead, SourceReadView, Store, StoreView};
use crate::text::joined;

verus! {

/// How many bytes a source under a schema may have.
pub open spec fn bound_of(schema: JsonValue) -> u64 {
    match number_in(member(schema, "maxBytes"@)) {
        Some(maximum) => if maximum < MAX_SOURCE_BYTES {
            maximum
        } else {
            MAX_SOURCE_BYTES
        },
        None => MAX_SOURCE_BYTES,
    }
}

/// A source that is about to be produced: its bound, and the attempt that produces it.
#[derive(Clone, Copy, Debug, PartialEq, Eq, Structural)]
pub struct SourcePlan {
    pub limit: u64,
    pub attempt: u32,
}

/// The schema of a property that is declared as a source.
pub open spec fn source_property(schema: JsonValue, property: Seq<char>) -> Option<JsonValue> {
    match declared_schema(schema, property) {
        Some(child) => if is_source_schema(child) {
            Some(child)
        } else {
            None
        },
        None => None,
    }
}

fn find_source_property<'a>(schema: &'a Json, property: &str) -> (found: Option<&'a Json>)
    ensures
        match found {
            Some(child) => source_property(schema@, property@) == Some(child@),
            None => source_property(schema@, property@) is None,
        },
{
    match find_declared(schema, property) {
        Some(child) => {
            if source_schema(child) {
                Some(child)
            } else {
                None
            }
        },
        None => None,
    }
}

/// What sealing a source changed, to be put back where the state could not be
/// persisted.
pub struct SealUndo {
    pub id: String,
    pub source: Option<LocalSource>,
    pub binding: Option<(String, String)>,
    pub produced: bool,
}

/// The state after a source was sealed under a property of a resource.
pub open spec fn sealed(
    state: StoreView,
    id: Seq<char>,
    source: LocalSourceView,
    resource: Seq<char>,
    property: Seq<char>,
) -> StoreView {
    StoreView {
        sources: state.sources.insert(id, source),
        bindings: state.bindings.insert(id, (resource, property)),
        produced: state.produced.insert(id),
        ..state
    }
}

/// The state without what sealing a source changed.
pub open spec fn unsealed(state: StoreView, undo: SealUndo) -> StoreView {
    StoreView {
        sources: match undo.source {
            Some(source) => state.sources.insert(undo.id@, source@),
            None => state.sources.remove(undo.id@),
        },
        bindings: match undo.binding {
            Some(binding) => state.bindings.insert(undo.id@, (binding.0@, binding.1@)),
            None => state.bindings.remove(undo.id@),
        },
        produced: if undo.produced {
            state.produced.remove(undo.id@)
        } else {
            state.produced
        },
        ..state
    }
}

/// A new id of a source: a prefix and 32 hexadecimal digits.
pub open spec fn is_source_id(id: Seq<char>) -> bool {
    exists|random: Seq<char>|
        id == "src_"@ + random && #[trigger] random.len() == 32 && forall|index: int|
            0 <= index < 32 ==> hex_character(#[trigger] random[index])
}

/// Returns a new id of a source.
pub fn new_source_id() -> (id: String)
    ensures
        is_source_id(id@),
{
    let random = random_id();
    let id = joined("src_", random.as_str());
    assert(id@ == "src_"@ + random@ && random@.len() == 32);
    id
}

impl Store {
    /// Begins to produce a source, and returns how many bytes it may have.
    ///
    /// `filename_valid` and `property_valid` are what the rules for filenames and for
    /// direct property names say.
    pub fn plan_source(&self, resource: &str, property: &str, filename_valid: bool, property_valid: bool) -> (plan: Result<
        SourcePlan,
        HostError,
    >)
        requires
            self.wf(),
        ensures
            ({
                let schema = self.setup.manifest.resources@[resource@].schema@;
                if !self.setup.action().permits(resource@, Capability::Write) {
                    plan == Err::<SourcePlan, _>(HostError::Unauthorized)
                } else if !self@.active() {
                    plan == Err::<SourcePlan, _>(HostError::Stopped)
                } else if !filename_valid {
                    plan == Err::<SourcePlan, _>(HostError::Invalid("invalid source filename"))
                } else if !property_valid {
                    plan == Err::<SourcePlan, _>(HostError::Invalid("source property must be a direct identifier"))
                } else {
                    match source_property(schema, property@) {
                        None => plan == Err::<SourcePlan, _>(HostError::Invalid("property is not a declared source")),
                        Some(child) => plan == Ok::<_, HostError>(
                            SourcePlan { limit: bound_of(child), attempt: self@.attempt() },
                        ),
                    }
                }
            }),
    {
        match self.setup.capability(resource, Capability::Write) {
            Ok(_) => {},
            Err(error) => return Err(error),
        }
        match self.check_active() {
            Ok(_) => {},
            Err(error) => return Err(error),
        }
        if !filename_valid {
            return Err(HostError::Invalid("invalid source filename"));
        }
        if !property_valid {
            return Err(HostError::Invalid("source property must be a direct identifier"));
        }
        let attempt: u32 = match &self.operation {
            Some(operation) => operation.attempt,
            None => 0,
        };
        let action = self.setup.find_action();
        assert(self.setup.manifest.resources@.dom().contains(resource@));
        let child = match self.setup.manifest.resources.get(resource) {
            Some(declaration) => find_source_property(&declaration.schema, property),
            None => None,
        };
        match child {
            None => Err(HostError::Invalid("property is not a declared source")),
            Some(child) => {
                let limit: u64 = match child.get_number("maxBytes") {
                    Some(maximum) => {
                        if maximum < MAX_SOURCE_BYTES {
                            maximum
                        } else {
                            MAX_SOURCE_BYTES
                        }
                    },
                    None => MAX_SOURCE_BYTES,
                };
                Ok(SourcePlan { limit, attempt })
            },
        }
    }

    /// Decides whether produced bytes may be sealed. `media_type` is what the bytes
    /// are detected as.
    pub fn accept_source(
        &self,
        resource: &str,
        property: &str,
        plan: SourcePlan,
        filename: &str,
        bytes: Vec<u8>,
        media_type: Option<String>,
    ) -> (source: Result<LocalSource, HostError>)
        requires
            self.wf(),
            self.setup.action().permits(resource@, Capability::Write),
            source_property(self.setup.manifest.resources@[resource@].schema@, property@) is Some,
        ensures
            ({
                let schema = source_property(self.setup.manifest.resources@[resource@].schema@, property@)->0;
                if bytes@.len() > plan.limit {
                    source == Err::<LocalSource, _>(HostError::TooLarge)
                } else {
                    match media_type {
                        None => source == Err::<LocalSource, _>(
                            HostError::Invalid("produced source media type cannot be identified"),
                        ),
                        Some(media_type) => {
                            let view = LocalSourceView { filename: filename@, media_type: media_type@, bytes: bytes@ };
                            if !admits_source(schema, view) {
                                source == Err::<LocalSource, _>(HostError::Invalid("source violates its declaration"))
                            } else if !self@.active() || self@.attempt() != plan.attempt {
                                source == Err::<LocalSource, _>(HostError::Stopped)
                            } else {
                                source matches Ok(source) && source@ == view
                            }
                        },
                    }
                }
            }),
    {
        if bytes.len() as u64 > plan.limit {
            return Err(HostError::TooLarge);
        }
        let media_type = match media_type {
            Some(media_type) => media_type,
            None => return Err(HostError::Invalid("produced source media type cannot be identified")),
        };
        let source = LocalSource { filename: filename.to_owned(), media_type, bytes };
        let action = self.setup.find_action();
        assert(self.setup.manifest.resources@.dom().contains(resource@));
        if let Some(declaration) = self.setup.manifest.resources.get(resource) {
            if let Some(child) = find_source_property(&declaration.schema, property) {
                if !source_allowed(child, &source) {
                    return Err(HostError::Invalid("source violates its declaration"));
                }
            }
        }
        match &self.operation {
            Some(operation) => {
                if operation.phase != Phase::Running || operation.attempt != plan.attempt {
                    return Err(HostError::Stopped);
                }
            },
            None => return Err(HostError::Stopped),
        }
        Ok(source)
    }

    /// Seals a produced source under a property of a resource, and returns how to undo
    /// it.
    pub fn seal_source(&mut self, id: &str, source: LocalSource, resource: &str, property: &str) -> (undo: SealUndo)
        requires
            old(self).wf(),
        ensures
            final(self).wf(),
            final(self).setup == old(self).setup,
            final(self)@ == sealed(old(self)@, id@, source@, resource@, property@),
            undo.id@ == id@,
            undo.binding is Some ==> undo.source is Some,
            undo.produced <==> undo.binding is None,
            unsealed(final(self)@, undo) == old(self)@,
    {
        let ghost state = self@;
        let ghost view = source@;
        let ghost before = *self;
        let previous = self.sources.insert(id.to_owned(), source);
        let binding = self.bindings.insert(id.to_owned(), (resource.to_owned(), property.to_owned()));
        let known = self.produced.insert(id.to_owned(), ());
        let undo = SealUndo { id: id.to_owned(), source: previous, binding, produced: known.is_none() };
        proof {
            assert(self@.sources =~= state.sources.insert(id@, view));
            assert(self@.bindings =~= state.bindings.insert(id@, (resource@, property@)));
            assert(self@.produced =~= state.produced.insert(id@));
            assert(unsealed(self@, undo).sources =~= state.sources);
            assert(unsealed(self@, undo).bindings =~= state.bindings);
            assert(unsealed(self@, undo).produced =~= state.produced);
            assert(self.produced@.dom() =~= self.bindings@.dom());
        }
        undo
    }

    /// Puts back what sealing a source changed.
    pub fn undo_seal(&mut self, undo: SealUndo)
        requires
            old(self).wf(),
            undo.binding is Some ==> undo.source is Some,
            old(self)@.produced.contains(undo.id@),
            undo.produced <==> undo.binding is None,
        ensures
            final(self).wf(),
            final(self).setup == old(self).setup,
            final(self)@ == unsealed(old(self)@, undo),
    {
        let ghost state = self@;
        let id = undo.id;
        match undo.source {
            Some(source) => {
                self.sources.insert(id.clone(), source);
            },
            None => {
                self.sources.remove(id.as_str());
            },
        }
        match undo.binding {
            Some(binding) => {
                self.bindings.insert(id.clone(), binding);
            },
            None => {
                self.bindings.remove(id.as_str());
            },
        }
        if undo.produced {
            self.produced.remove(id.as_str());
        }
        proof {
            assert(self@.sources =~= unsealed(state, undo).sources);
            assert(self@.bindings =~= unsealed(state, undo).bindings);
            assert(self@.produced =~= unsealed(state, undo).produced);
            assert(self.produced@.dom() =~= self.bindings@.dom());
        }
    }
}

/// A reader of a source: what it reads, for which attempt, and how far it came.
pub struct SourceReader {
    pub bytes: Vec<u8>,
    pub id: String,
    pub filename: String,
    pub read_id: String,
    pub attempt: u32,
    pub count: usize,
}

impl SourceReader {
    /// The reader stands within its bytes.
    pub open spec fn wf(&self) -> bool {
        self.count <= self.bytes@.len()
    }

    /// What is noted of a read that came to `count`.
    pub open spec fn note(&self, count: int) -> SourceReadView {
        SourceReadView {
            source_id: self.id@,
            filename: self.filename@,
            sha256: hex_of(sha256_of(self.bytes@.take(count))),
            size: count as u64,
        }
    }
}

/// What one read of a source changed, to be put back where the state could not be
/// persisted.
pub struct ObserveUndo {
    pub read_id: String,
    pub note: Option<SourceRead>,
    pub count: usize,
}

/// The state without what a read of a source changed.
pub open spec fn unobserved(state: StoreView, undo: ObserveUndo) -> StoreView {
    StoreView {
        source_reads: match undo.note {
            Some(note) => state.source_reads.insert(undo.read_id@, note@),
            None => state.source_reads.remove(undo.read_id@),
        },
        ..state
    }
}

impl Store {
    /// Opens a source that was lent or produced.
    pub fn open_source(&self, id: &str) -> (reader: Result<SourceReader, HostError>)
        requires
            self.wf(),
        ensures
            if !self@.active() {
                reader == Err::<SourceReader, _>(HostError::Stopped)
            } else if !self@.lent.contains(id@) && !self@.bindings.dom().contains(id@) {
                reader == Err::<SourceReader, _>(HostError::Unauthorized)
            } else if !self@.sources.dom().contains(id@) {
                reader == Err::<SourceReader, _>(HostError::SourceUnreadable)
            } else {
                reader matches Ok(reader) && reader.wf() && reader.bytes@ == self@.sources[id@].bytes && reader.id@ == id@
                    && reader.filename@ == self@.sources[id@].filename && reader.attempt == self@.attempt()
                    && reader.count == 0
            },
    {
        match self.check_active() {
            Ok(_) => {},
            Err(error) => return Err(error),
        }
        let attempt: u32 = match &self.operation {
            Some(operation) => operation.attempt,
            None => 0,
        };
        if !self.lent.contains(id) && !self.bindings.contains(id) {
            return Err(HostError::Unauthorized);
        }
        match self.sources.get(id) {
            None => Err(HostError::SourceUnreadable),
            Some(source) => Ok(
                SourceReader {
                    bytes: vstd::slice::slice_to_vec(source.bytes.as_slice()),
                    id: id.to_owned(),
                    filename: source.filename.clone(),
                    read_id: random_id(),
                    attempt,
                    count: 0,
                },
            ),
        }
    }

    /// Reads up to `capacity` more bytes of a source, notes the hash and the length of
    /// all bytes read so far, and returns the bytes and how to undo the read. A reader
    /// of an attempt that is over reads nothing.
    pub fn observe(&mut self, reader: &mut SourceReader, capacity: usize) -> (read: Option<(Vec<u8>, ObserveUndo)>)
        requires
            old(self).wf(),
            old(reader).wf(),
            capacity > 0,
        ensures
            final(self).wf(),
            final(self).setup == old(self).setup,
            final(reader).wf(),
            final(reader).bytes == old(reader).bytes,
            final(reader).id == old(reader).id,
            final(reader).filename == old(reader).filename,
            final(reader).read_id == old(reader).read_id,
            final(reader).attempt == old(reader).attempt,
            ({
                let state = old(self)@;
                let left = old(reader).bytes@.len() - old(reader).count;
                let length = if capacity < left {
                    capacity as int
                } else {
                    left
                };
                if !state.active() || state.attempt() != old(reader).attempt {
                    read is None && final(self)@ == state && final(reader).count == old(reader).count
                } else {
                    let end = old(reader).count + length;
                    &&& read matches Some((bytes, undo))
                    &&& bytes@ == old(reader).bytes@.subrange(old(reader).count as int, end)
                    &&& final(reader).count == end
                    &&& final(self)@ == (StoreView {
                        source_reads: state.source_reads.insert(old(reader).read_id@, old(reader).note(end)),
                        ..state
                    })
                    &&& unobserved(final(self)@, undo) == state
                    &&& undo.read_id@ == old(reader).read_id@ && undo.count == old(reader).count
                }
            }),
    {
        match &self.operation {
            Some(operation) => {
                if operation.phase != Phase::Running || operation.attempt != reader.attempt {
                    return None;
                }
            },
            None => return None,
        }
        let ghost state = self@;
        let start = reader.count;
        let left = reader.bytes.len() - start;
        let end: usize = start + if capacity < left {
            capacity
        } else {
            left
        };
        let chunk = vstd::slice::slice_to_vec(vstd::slice::slice_subrange(reader.bytes.as_slice(), start, end));
        let hash = sha256(vstd::slice::slice_subrange(reader.bytes.as_slice(), 0, end));
        assert(reader.bytes@.subrange(0, end as int) =~= reader.bytes@.take(end as int));
        let note = SourceRead {
            source_id: reader.id.clone(),
            filename: reader.filename.clone(),
            sha256: hex(hash.as_slice()),
            size: end as u64,
        };
        let ghost noted = note@;
        let previous = self.source_reads.insert(reader.read_id.clone(), note);
        reader.count = end;
        let undo = ObserveUndo { read_id: reader.read_id.clone(), note: previous, count: start };
        proof {
            assert(self@.source_reads =~= state.source_reads.insert(reader.read_id@, noted));
            assert(unobserved(self@, undo).source_reads =~= state.source_reads);
        }
        Some((chunk, undo))
    }

    /// Puts back what a read of a source changed, in the notes and in the reader.
    pub fn undo_observe(&mut self, reader: &mut SourceReader, undo: ObserveUndo)
        requires
            old(self).wf(),
            undo.count <= old(reader).bytes@.len(),
        ensures
            final(self).wf(),
            final(self).setup == old(self).setup,
            final(self)@ == unobserved(old(self)@, undo),
            *final(reader) == (SourceReader { count: undo.count, ..*old(reader) }),
    {
        let ghost state = self@;
        reader.count = undo.count;
        match undo.note {
            Some(note) => {
                self.source_reads.insert(undo.read_id, note);
            },
            None => {
                self.source_reads.remove(undo.read_id.as_str());
            },
        }
        assert(self@.source_reads =~= unobserved(state, undo).source_reads);
    }
}

/// A source may have as many bytes as its schema allows, and never more than any source may.
pub proof fn law_source_bounds(schema: JsonValue)
    ensures
        bound_of(schema) <= MAX_SOURCE_BYTES,
        number_in(member(schema, "maxBytes"@)) matches Some(maximum) ==> bound_of(schema) <= maximum && (bound_of(schema)
            == maximum || bound_of(schema) == MAX_SOURCE_BYTES),
        number_in(member(schema, "maxBytes"@)) is None ==> bound_of(schema) == MAX_SOURCE_BYTES,
{
}

/// Sealing a source keeps it under its id with the property that it was produced for, and
/// changes no other source.
pub proof fn law_sealing_keeps_the_source(
    state: StoreView,
    id: Seq<char>,
    source: LocalSourceView,
    resource: Seq<char>,
    property: Seq<char>,
    other: Seq<char>,
)
    ensures
        ({
            let after = sealed(state, id, source, resource, property);
            &&& after.sources.dom().contains(id) && after.sources[id] == source
            &&& after.bindings.dom().contains(id) && after.bindings[id] == (resource, property)
            &&& after.produced.contains(id)
            &&& other != id ==> (after.sources.dom().contains(other) <==> state.sources.dom().contains(other))
                && (state.sources.dom().contains(other) ==> after.sources[other] == state.sources[other])
            &&& other != id ==> (after.bindings.dom().contains(other) <==> state.bindings.dom().contains(other))
            &&& other != id ==> (after.produced.contains(other) <==> state.produced.contains(other))
            &&& after.writers == state.writers && after.readers == state.readers && after.lent == state.lent && after.logs
                == state.logs && after.operation == state.operation && after.source_reads == state.source_reads
        }),
{
}

/// A property takes sources exactly where it is declared, and declared as a source.
pub proof fn law_source_properties(schema: JsonValue, property: Seq<char>)
    ensures
        source_property(schema, property) matches Some(child) ==> declared_schema(schema, property) == Some(child)
            && is_source_schema(child),
        declared_schema(schema, property) matches Some(child) && is_source_schema(child) ==> source_property(schema, property)
            == declared_schema(schema, property),
{
}

/// What is noted of a read is the source, how many bytes were read, and the hash of these.
pub proof fn law_reads_are_noted(reader: SourceReader, count: int)
    requires
        0 <= count <= reader.bytes@.len() <= u64::MAX,
    ensures
        reader.note(count).source_id == reader.id@,
        reader.note(count).filename == reader.filename@,
        reader.note(count).size == count,
        reader.note(count).sha256 == hex_of(sha256_of(reader.bytes@.subrange(0, count))),
{
    assert(reader.bytes@.take(count) =~= reader.bytes@.subrange(0, count));
}

/// The id of a source is a prefix and 32 hexadecimal digits in small letters.
pub proof fn law_ids_of_sources(id: Seq<char>)
    ensures
        is_source_id(id) <==> {
            &&& id.len() == 36
            &&& id.take(4) == seq!['s', 'r', 'c', '_']
            &&& forall|i: int| 4 <= i < 36 ==> '0' <= #[trigger] id[i] <= '9' || 'a' <= id[i] <= 'f'
        },
{
    reveal_strlit("src_");
    assert("src_"@ =~= seq!['s', 'r', 'c', '_']);
    if is_source_id(id) {
        let random = choose|random: Seq<char>|
            id == "src_"@ + random && #[trigger] random.len() == 32 && forall|index: int|
                0 <= index < 32 ==> hex_character(#[trigger] random[index]);
        assert(id.take(4) =~= "src_"@);
        assert forall|i: int| 4 <= i < 36 implies '0' <= #[trigger] id[i] <= '9' || 'a' <= id[i] <= 'f' by {
            assert(hex_character(random[i - 4]));
        }
    }
    if id.len() == 36 && id.take(4) == seq!['s', 'r', 'c', '_'] && forall|i: int|
        4 <= i < 36 ==> '0' <= #[trigger] id[i] <= '9' || 'a' <= id[i] <= 'f' {
        let random = id.skip(4);
        assert(id =~= "src_"@ + random);
        assert forall|i: int| 0 <= i < 32 implies hex_character(#[trigger] random[i]) by {
            assert(id[i + 4] == random[i]);
        }
        assert(random.len() == 32);
    }
}

} // verus!

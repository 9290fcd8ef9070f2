//! Extension components: reading, stamping and checking the top-level manifest,
//! and reading the build declarations of nested modules.

use vstd::prelude::*;
use vstd::string::*;
use vstd::utf8::*;

use crate::envelope::{
    custom_of, encode_leb, law_leb_round_trip, leb_bytes, leb_from, leb_width, lemma_leb_bounds, section_at, Rejection,
    Sections,
};
use crate::text::{lemma_same_encoding, same_bytes};

verus! {

/// The longest component that is read or written, in bytes.
pub const MAX_COMPONENT_BYTES: usize = 64 * 1024 * 1024;

/// The longest manifest or declaration section, in bytes.
pub const MAX_MANIFEST_BYTES: usize = 256 * 1024;

/// One extension, its actions, its resources and its connections.
pub const MAX_PARTS: usize = 1 + 64 + 32 + 8;

/// How deeply modules and components may nest.
pub const MAX_NESTING: usize = 32;

/// The name of the custom section that holds the manifest.
pub const MANIFEST_SECTION: &'static str = "sloper:manifest";

/// The name of the custom sections that hold build declarations.
pub const PARTS_SECTION: &'static str = "sloper:parts";

/// One publication finding.
#[derive(Debug)]
pub struct Finding {
    pub code: String,
    pub location: String,
    pub message: String,
}

/// What a finding says.
pub ghost struct FindingView {
    pub code: Seq<char>,
    pub location: Seq<char>,
    pub message: Seq<char>,
}

impl View for Finding {
    type V = FindingView;

    open spec fn view(&self) -> FindingView {
        FindingView { code: self.code@, location: self.location@, message: self.message@ }
    }
}

/// What each of several findings says.
pub open spec fn finding_views(findings: Seq<Finding>) -> Seq<FindingView> {
    findings.map_values(|finding: Finding| finding@)
}

/// A rejected component envelope, build declaration, document or world.
#[derive(Debug)]
pub enum ComponentError {
    /// The envelope or a declaration was rejected.
    Rejected(Rejection),
    /// The envelope to build from was rejected, for the reason kept inside.
    Assembly(Rejection),
    /// The manifest document was rejected with these findings.
    Manifest(Vec<Finding>),
    /// The component does not implement the extension world, for the reason kept inside.
    World(String),
}

/// What a component error says.
pub ghost enum Fault {
    Rejected(Rejection),
    Assembly(Rejection),
    Manifest(Seq<FindingView>),
    World(Seq<char>),
}

impl View for ComponentError {
    type V = Fault;

    open spec fn view(&self) -> Fault {
        match self {
            ComponentError::Rejected(rejection) => Fault::Rejected(*rejection),
            ComponentError::Assembly(rejection) => Fault::Assembly(*rejection),
            ComponentError::Manifest(findings) => Fault::Manifest(finding_views(findings@)),
            ComponentError::World(reason) => Fault::World(reason@),
        }
    }
}

/// The findings that a publication response may show of a fault.
pub open spec fn fault_findings(fault: Fault) -> Seq<FindingView> {
    match fault {
        Fault::Rejected(rejection) => seq![
            FindingView { code: rejection.code_spec(), location: ""@, message: rejection.message_spec() },
        ],
        Fault::Assembly(_) => seq![
            FindingView {
                code: "EXTENSION_PARTS_INVALID"@,
                location: ""@,
                message: "Build component envelope is malformed."@,
            },
        ],
        Fault::Manifest(findings) => findings,
        Fault::World(_) => seq![
            FindingView {
                code: "MANIFEST_WORLD_INVALID"@,
                location: ""@,
                message: "Component does not implement the supported extension world."@,
            },
        ],
    }
}

impl ComponentError {
    /// The findings that a publication response may show.
    pub open spec fn findings_spec(&self) -> Seq<FindingView> {
        fault_findings(self@)
    }

    /// Returns the findings that a publication response may show.
    pub fn findings(&self) -> (findings: Vec<Finding>)
        ensures
            finding_views(findings@) == self.findings_spec(),
    {
        let mut findings: Vec<Finding> = Vec::new();
        match self {
            ComponentError::Rejected(rejection) => {
                findings.push(simple_finding(rejection.code(), rejection.message()));
            },
            ComponentError::Assembly(_) => {
                findings.push(simple_finding("EXTENSION_PARTS_INVALID", "Build component envelope is malformed."));
            },
            ComponentError::Manifest(listed) => {
                let mut index: usize = 0;
                while index < listed.len()
                    invariant
                        index <= listed.len(),
                        finding_views(findings@) =~= finding_views(listed@.take(index as int)),
                    decreases listed.len() - index,
                {
                    let finding = &listed[index];
                    let ghost before = findings@;
                    findings.push(
                        Finding {
                            code: finding.code.clone(),
                            location: finding.location.clone(),
                            message: finding.message.clone(),
                        },
                    );
                    proof {
                        let taken = listed@.take(index as int);
                        assert(listed@.take(index + 1) =~= taken.push(listed@[index as int]));
                        assert(findings@.last()@ == listed@[index as int]@);
                        assert(finding_views(findings@) =~= finding_views(before).push(findings@.last()@));
                        assert(finding_views(taken.push(listed@[index as int])) =~= finding_views(taken).push(
                            listed@[index as int]@,
                        ));
                    }
                    index += 1;
                }
                assert(listed@.take(listed@.len() as int) =~= listed@);
            },
            ComponentError::World(_) => {
                findings.push(
                    simple_finding(
                        "MANIFEST_WORLD_INVALID",
                        "Component does not implement the supported extension world.",
                    ),
                );
            },
        }
        assert(finding_views(findings@) =~= self.findings_spec());
        findings
    }
}

fn simple_finding(code: &str, message: &str) -> (finding: Finding)
    ensures
        finding@ == (FindingView { code: code@, location: ""@, message: message@ }),
{
    proof {
        reveal_strlit("");
        assert(""@ =~= Seq::<char>::empty());
    }
    Finding { code: code.to_owned(), location: String::new(), message: message.to_owned() }
}

/// The first four bytes of every WebAssembly binary.
pub open spec fn has_magic(bytes: Seq<u8>) -> bool {
    bytes.len() >= 8 && bytes[0] == 0 && bytes[1] == 0x61 && bytes[2] == 0x73 && bytes[3] == 0x6d
}

/// A component header of a component within the limit; otherwise why not.
pub open spec fn header_of(bytes: Seq<u8>) -> Result<(), Rejection> {
    if !(has_magic(bytes) && bytes[6] == 1 && bytes[7] == 0) {
        Err(Rejection::HeaderExpected)
    } else if bytes.len() > MAX_COMPONENT_BYTES {
        Err(Rejection::ComponentTooLarge)
    } else {
        Ok(())
    }
}

fn magic(bytes: &[u8]) -> (magic: bool)
    ensures
        magic == has_magic(bytes@),
{
    bytes.len() >= 8 && bytes[0] == 0 && bytes[1] == 0x61 && bytes[2] == 0x73 && bytes[3] == 0x6d
}

/// Checks the header and the length of a component.
pub fn component_header(bytes: &[u8]) -> (header: Result<(), Rejection>)
    ensures
        header == header_of(bytes@),
{
    if !(magic(bytes) && bytes[6] == 1 && bytes[7] == 0) {
        return Err(Rejection::HeaderExpected);
    }
    if bytes.len() > MAX_COMPONENT_BYTES {
        return Err(Rejection::ComponentTooLarge);
    }
    Ok(())
}

/// The manifest among the sections from `position` on, where `found` is the one
/// that stands before. Only custom sections of the component itself count.
pub open spec fn manifest_from(bytes: Seq<u8>, position: int, found: Option<Seq<u8>>) -> Result<Seq<u8>, Rejection>
    decreases bytes.len() - position,
{
    if position >= bytes.len() {
        match found {
            Some(manifest) => Ok(manifest),
            None => Err(Rejection::ManifestAbsent),
        }
    } else {
        match section_at(bytes, position) {
            Err(rejection) => Err(rejection),
            Ok((id, start, end)) => {
                proof {
                    lemma_leb_bounds(bytes, position + 1, 0);
                }
                match custom_of(id, bytes.subrange(start, end)) {
                    Err(rejection) => Err(rejection),
                    Ok(Some((name, contents))) => if name != encode_utf8(MANIFEST_SECTION@) {
                        manifest_from(bytes, end, found)
                    } else if found is Some {
                        Err(Rejection::ManifestDuplicated)
                    } else if contents.len() > MAX_MANIFEST_BYTES {
                        Err(Rejection::ManifestTooLarge)
                    } else {
                        manifest_from(bytes, end, Some(contents))
                    },
                    Ok(None) => manifest_from(bytes, end, found),
                }
            },
        }
    }
}

/// The one manifest of a component, or why there is none.
pub open spec fn manifest_of(component: Seq<u8>) -> Result<Seq<u8>, Rejection> {
    match header_of(component) {
        Err(rejection) => Err(rejection),
        Ok(_) => manifest_from(component, 8, None),
    }
}

/// Returns the exact bytes of the single top-level manifest.
///
/// Nested modules are never searched for a manifest.
pub fn extract_manifest(component: &[u8]) -> (manifest: Result<&[u8], ComponentError>)
    ensures
        match manifest {
            Ok(manifest) => manifest_of(component@) == Ok::<Seq<u8>, Rejection>(manifest@),
            Err(ComponentError::Rejected(rejection)) => manifest_of(component@) == Err::<Seq<u8>, Rejection>(
                rejection,
            ),
            Err(_) => false,
        },
{
    match find_manifest(component) {
        Ok(manifest) => Ok(manifest),
        Err(rejection) => Err(ComponentError::Rejected(rejection)),
    }
}

fn find_manifest(component: &[u8]) -> (manifest: Result<&[u8], Rejection>)
    ensures
        match manifest {
            Ok(manifest) => manifest_of(component@) == Ok::<Seq<u8>, Rejection>(manifest@),
            Err(rejection) => manifest_of(component@) == Err::<Seq<u8>, Rejection>(rejection),
        },
{
    match component_header(component) {
        Ok(_) => {},
        Err(rejection) => return Err(rejection),
    }
    let mut found: Option<&[u8]> = None;
    let mut sections = Sections::new(component);
    loop
        invariant
            sections.wf(),
            sections.bytes == component,
            manifest_of(component@) == manifest_from(
                component@,
                sections.position as int,
                match found {
                    Some(manifest) => Some(manifest@),
                    None => None,
                },
            ),
        decreases component@.len() - sections.position,
    {
        let section = match sections.next() {
            Err(rejection) => return Err(rejection),
            Ok(None) => {
                return match found {
                    Some(manifest) => Ok(manifest),
                    None => Err(Rejection::ManifestAbsent),
                };
            },
            Ok(Some(section)) => section,
        };
        match section.custom() {
            Err(rejection) => return Err(rejection),
            Ok(None) => {},
            Ok(Some((name, contents))) => {
                if same_bytes(name.as_bytes(), MANIFEST_SECTION.as_bytes()) {
                    if found.is_some() {
                        return Err(Rejection::ManifestDuplicated);
                    }
                    if contents.len() > MAX_MANIFEST_BYTES {
                        return Err(Rejection::ManifestTooLarge);
                    }
                    found = Some(contents);
                }
            },
        }
    }
}

/// The build declarations of a module or component, read after `parts`.
pub open spec fn parts_in(bytes: Seq<u8>, parts: Seq<Seq<u8>>, depth: int) -> Result<Seq<Seq<u8>>, Rejection>
    decreases MAX_NESTING + 1 - depth, bytes.len() + 1,
{
    if depth > MAX_NESTING || !has_magic(bytes) {
        Err(Rejection::NestingInvalid)
    } else if bytes[4] == 1 && bytes[5] == 0 && bytes[6] == 0 && bytes[7] == 0 {
        parts_from(bytes, false, 8, parts, depth)
    } else if bytes[6] == 1 && bytes[7] == 0 {
        parts_from(bytes, true, 8, parts, depth)
    } else {
        Err(Rejection::NestedHeaderInvalid)
    }
}

/// The build declarations in the sections from `position` on, read after `parts`.
/// A module's own declaration sections count, a component's do not; a component
/// is searched for modules and components.
pub open spec fn parts_from(
    bytes: Seq<u8>,
    component: bool,
    position: int,
    parts: Seq<Seq<u8>>,
    depth: int,
) -> Result<Seq<Seq<u8>>, Rejection>
    decreases MAX_NESTING + 1 - depth, bytes.len() - position,
{
    if depth > MAX_NESTING {
        Err(Rejection::NestingInvalid)
    } else if position >= bytes.len() {
        Ok(parts)
    } else {
        match section_at(bytes, position) {
            Err(rejection) => Err(rejection),
            Ok((id, start, end)) => {
                proof {
                    lemma_leb_bounds(bytes, position + 1, 0);
                }
                let contents = bytes.subrange(start, end);
                match custom_of(id, contents) {
                    Err(rejection) => Err(rejection),
                    Ok(Some((name, part))) => if component || name != encode_utf8(PARTS_SECTION@) {
                        parts_from(bytes, component, end, parts, depth)
                    } else if part.len() > MAX_MANIFEST_BYTES || parts.len() >= MAX_PARTS {
                        Err(Rejection::PartsOutOfBounds)
                    } else {
                        parts_from(bytes, component, end, parts.push(part), depth)
                    },
                    Ok(None) => if component && (id == 1 || id == 4) {
                        if !nested_layer(id, contents) {
                            Err(Rejection::NestedLayerInvalid)
                        } else {
                            match parts_in(contents, parts, depth + 1) {
                                Err(rejection) => Err(rejection),
                                Ok(nested) => parts_from(bytes, component, end, nested, depth),
                            }
                        }
                    } else {
                        parts_from(bytes, component, end, parts, depth)
                    },
                }
            },
        }
    }
}

/// A section for modules holds a module, one for components a component.
pub open spec fn nested_layer(id: u8, contents: Seq<u8>) -> bool {
    contents.len() >= 8 && contents[6] == (if id == 1 {
        0u8
    } else {
        1u8
    }) && contents[7] == 0
}

/// The build declarations of a component, or why the envelope was rejected.
pub open spec fn parts_of(component: Seq<u8>) -> Result<Seq<Seq<u8>>, Rejection> {
    match header_of(component) {
        Err(rejection) => Err(rejection),
        Ok(_) => parts_in(component, Seq::empty(), 0),
    }
}

/// The bytes of each slice.
pub open spec fn slices(parts: Seq<&[u8]>) -> Seq<Seq<u8>> {
    parts.map_values(|part: &[u8]| part@)
}

/// Returns the build declarations of the core modules nested in a component.
///
/// A declaration section of a component itself is none of these.
pub fn extract_parts(component: &[u8]) -> (parts: Result<Vec<&[u8]>, ComponentError>)
    ensures
        match parts {
            Ok(parts) => parts_of(component@) == Ok::<Seq<Seq<u8>>, Rejection>(slices(parts@)),
            Err(ComponentError::Assembly(rejection)) => parts_of(component@) == Err::<Seq<Seq<u8>>, Rejection>(
                rejection,
            ),
            Err(_) => false,
        },
{
    match component_header(component) {
        Ok(_) => {},
        Err(rejection) => return Err(ComponentError::Assembly(rejection)),
    }
    let mut parts: Vec<&[u8]> = Vec::new();
    assert(slices(parts@) =~= Seq::empty());
    match walk_parts(component, &mut parts, 0) {
        Ok(_) => Ok(parts),
        Err(rejection) => Err(ComponentError::Assembly(rejection)),
    }
}

/// `part` is a stretch of `bytes`.
pub open spec fn is_within(part: Seq<u8>, bytes: Seq<u8>) -> bool {
    exists|start: int| 0 <= start && start + part.len() <= bytes.len() && #[trigger] bytes.subrange(
        start,
        start + part.len(),
    ) == part
}

/// `after` is `before` with stretches of `bytes` behind it, each of which a declaration
/// section may hold, and no more of them than there may be.
pub open spec fn extends_parts(before: Seq<Seq<u8>>, after: Seq<Seq<u8>>, bytes: Seq<u8>) -> bool {
    &&& before.is_prefix_of(after)
    &&& forall|index: int|
        before.len() <= index < after.len() ==> is_within(#[trigger] after[index], bytes) && after[index].len()
            <= MAX_MANIFEST_BYTES
    &&& after.len() <= before.len() || after.len() <= MAX_PARTS
}

proof fn lemma_within(part: Seq<u8>, inner: Seq<u8>, outer: Seq<u8>)
    requires
        is_within(part, inner),
        is_within(inner, outer),
    ensures
        is_within(part, outer),
{
    let first = choose|start: int|
        0 <= start && start + part.len() <= inner.len() && #[trigger] inner.subrange(start, start + part.len()) == part;
    let second = choose|start: int|
        0 <= start && start + inner.len() <= outer.len() && #[trigger] outer.subrange(start, start + inner.len())
            == inner;
    assert(outer.subrange(second + first, second + first + part.len()) =~= part);
}

/// Appends the build declarations of a module or component to `parts`. Where they are
/// rejected, those found before stay in the list.
pub fn walk_parts<'a>(bytes: &'a [u8], parts: &mut Vec<&'a [u8]>, depth: usize) -> (walked: Result<(), Rejection>)
    ensures
        match walked {
            Ok(_) => parts_in(bytes@, slices(old(parts)@), depth as int) == Ok::<Seq<Seq<u8>>, Rejection>(
                slices(final(parts)@),
            ),
            Err(rejection) => parts_in(bytes@, slices(old(parts)@), depth as int) == Err::<Seq<Seq<u8>>, Rejection>(
                rejection,
            ),
        },
        extends_parts(slices(old(parts)@), slices(final(parts)@), bytes@),
        depth > MAX_NESTING || !has_magic(bytes@) ==> walked is Err && final(parts)@ == old(parts)@,
    decreases MAX_NESTING + 1 - depth,
{
    if depth > MAX_NESTING || !magic(bytes) {
        return Err(Rejection::NestingInvalid);
    }
    let component = if bytes[4] == 1 && bytes[5] == 0 && bytes[6] == 0 && bytes[7] == 0 {
        false
    } else if bytes[6] == 1 && bytes[7] == 0 {
        true
    } else {
        return Err(Rejection::NestedHeaderInvalid);
    };
    let ghost whole = slices(parts@);
    let mut sections = Sections::new(bytes);
    loop
        invariant
            sections.wf(),
            sections.bytes == bytes,
            depth <= MAX_NESTING,
            has_magic(bytes@),
            whole == slices(old(parts)@),
            extends_parts(whole, slices(parts@), bytes@),
            parts_in(bytes@, slices(old(parts)@), depth as int) == parts_from(
                bytes@,
                component,
                sections.position as int,
                slices(parts@),
                depth as int,
            ),
        decreases bytes@.len() - sections.position,
    {
        let ghost before = parts@;
        let section = match sections.next() {
            Err(rejection) => return Err(rejection),
            Ok(None) => return Ok(()),
            Ok(Some(section)) => section,
        };
        assert(is_within(section.contents@, bytes@));
        match section.custom() {
            Err(rejection) => return Err(rejection),
            Ok(Some((name, contents))) => {
                if !component && same_bytes(name.as_bytes(), PARTS_SECTION.as_bytes()) {
                    if contents.len() > MAX_MANIFEST_BYTES || parts.len() >= MAX_PARTS {
                        return Err(Rejection::PartsOutOfBounds);
                    }
                    parts.push(contents);
                    proof {
                        assert(slices(parts@) =~= slices(before).push(contents@));
                        let end = section.contents@.len() - contents@.len();
                        lemma_leb_bounds(section.contents@, 0, 0);
                        assert(section.contents@.subrange(end, end + contents@.len()) =~= contents@);
                        lemma_within(contents@, section.contents@, bytes@);
                    }
                }
            },
            Ok(None) => {
                if component && (section.id == 1 || section.id == 4) {
                    let layer: u8 = if section.id == 1 {
                        0
                    } else {
                        1
                    };
                    let nested = section.contents;
                    if nested.len() < 8 || nested[6] != layer || nested[7] != 0 {
                        return Err(Rejection::NestedLayerInvalid);
                    }
                    let walked = walk_parts(nested, parts, depth + 1);
                    proof {
                        let after = slices(parts@);
                        assert forall|index: int| whole.len() <= index < after.len() implies is_within(
                            #[trigger] after[index],
                            bytes@,
                        ) && after[index].len() <= MAX_MANIFEST_BYTES by {
                            if index >= slices(before).len() {
                                lemma_within(after[index], nested@, bytes@);
                            } else {
                                assert(after[index] == slices(before)[index]);
                            }
                        }
                    }
                    match walked {
                        Ok(_) => {},
                        Err(rejection) => return Err(rejection),
                    }
                }
            },
        }
    }
}

/// The contents of the custom section that carries `manifest`.
pub open spec fn manifest_payload(manifest: Seq<u8>) -> Seq<u8> {
    leb_bytes(encode_utf8(MANIFEST_SECTION@).len()) + encode_utf8(MANIFEST_SECTION@) + manifest
}

/// `component` with `manifest` appended as one custom section.
pub open spec fn stamped(component: Seq<u8>, manifest: Seq<u8>) -> Seq<u8> {
    component + (seq![0u8] + leb_bytes(manifest_payload(manifest).len()) + manifest_payload(manifest))
}

/// Why a component is not stamped with a manifest of which the manifest validator said
/// `document`, if it is not.
pub open spec fn stamp_fault(component: Seq<u8>, manifest: Seq<u8>, document: Result<(), Vec<Finding>>) -> Option<
    ComponentError,
> {
    match manifest_of(component) {
        Ok(_) => Some(ComponentError::Rejected(Rejection::AlreadyStamped)),
        Err(Rejection::ManifestAbsent) => match document {
            Err(findings) => Some(ComponentError::Manifest(findings)),
            Ok(_) => if manifest.len() > MAX_MANIFEST_BYTES {
                Some(ComponentError::Rejected(Rejection::ManifestTooLarge))
            } else if stamped(component, manifest).len() > MAX_COMPONENT_BYTES {
                Some(ComponentError::Rejected(Rejection::StampTooLarge))
            } else {
                None
            },
        },
        Err(rejection) => Some(ComponentError::Assembly(rejection)),
    }
}

/// Appends the exact manifest bytes to a component as one top-level section.
///
/// `document` is what the manifest validator says of `manifest`. A component
/// that has a manifest already is refused, and so is one whose envelope is
/// malformed, whose manifest is too long to be read back, or whose stamped bytes
/// would exceed the component limit.
pub fn stamp_manifest(component: &[u8], manifest: &[u8], document: Result<(), Vec<Finding>>) -> (output: Result<
    Vec<u8>,
    ComponentError,
>)
    ensures
        match stamp_fault(component@, manifest@, document) {
            Some(error) => output == Err::<Vec<u8>, _>(error),
            None => output matches Ok(output) && output@ == stamped(component@, manifest@),
        },
{
    match find_manifest(component) {
        Ok(_) => return Err(ComponentError::Rejected(Rejection::AlreadyStamped)),
        Err(Rejection::ManifestAbsent) => {},
        Err(rejection) => return Err(ComponentError::Assembly(rejection)),
    }
    match document {
        Ok(_) => {},
        Err(findings) => return Err(ComponentError::Manifest(findings)),
    }
    let name = MANIFEST_SECTION.as_bytes();
    proof {
        lemma_names();
    }
    let name_width = leb_width(name.len());
    let ghost payload = manifest_payload(manifest@);
    if manifest.len() > MAX_MANIFEST_BYTES {
        return Err(ComponentError::Rejected(Rejection::ManifestTooLarge));
    }
    let payload_length = name_width + name.len() + manifest.len();
    let output_length = component.len() + 1 + leb_width(payload_length) + payload_length;
    if output_length > MAX_COMPONENT_BYTES {
        return Err(ComponentError::Rejected(Rejection::StampTooLarge));
    }
    let mut output: Vec<u8> = Vec::with_capacity(output_length);
    output.extend_from_slice(component);
    output.push(0);
    encode_leb(payload_length, &mut output);
    encode_leb(name.len(), &mut output);
    output.extend_from_slice(name);
    output.extend_from_slice(manifest);
    assert(output@ =~= stamped(component@, manifest@));
    Ok(output)
}

/// The section names are ASCII text of known length, and they differ.
proof fn lemma_names()
    ensures
        encode_utf8(MANIFEST_SECTION@).len() == 15,
        valid_utf8(encode_utf8(MANIFEST_SECTION@)),
        encode_utf8(MANIFEST_SECTION@) != encode_utf8(PARTS_SECTION@),
{
    reveal_strlit("sloper:manifest");
    reveal_strlit("sloper:parts");
    is_ascii_spec_bytes("sloper:manifest");
    is_ascii_spec_bytes("sloper:parts");
    encode_utf8_valid_utf8(MANIFEST_SECTION@);
    if encode_utf8(MANIFEST_SECTION@) == encode_utf8(PARTS_SECTION@) {
        lemma_same_encoding(MANIFEST_SECTION@, PARTS_SECTION@);
    }
}

/// Reading a number does not depend on the bytes behind it.
proof fn lemma_leb_extends(bytes: Seq<u8>, tail: Seq<u8>, position: int, index: int)
    requires
        leb_from(bytes, position, index) is Ok,
    ensures
        leb_from(bytes + tail, position, index) == leb_from(bytes, position, index),
    decreases 5 - index,
{
    if bytes[position] >= 0x80 {
        lemma_leb_extends(bytes, tail, position + 1, index + 1);
    }
}

/// A section that fits its bytes is read the same with more bytes behind.
pub proof fn lemma_section_extends(bytes: Seq<u8>, tail: Seq<u8>, position: int)
    requires
        0 <= position < bytes.len(),
        section_at(bytes, position) is Ok,
    ensures
        section_at(bytes + tail, position) == section_at(bytes, position),
        section_at(bytes, position) matches Ok((id, start, end)) ==> position < start <= end <= bytes.len()
            && (bytes + tail).subrange(start, end) == bytes.subrange(start, end),
{
    lemma_leb_extends(bytes, tail, position + 1, 0);
    lemma_leb_bounds(bytes, position + 1, 0);
    let (id, start, end) = section_at(bytes, position)->Ok_0;
    assert((bytes + tail).subrange(start, end) =~= bytes.subrange(start, end));
}

/// Sections without a manifest are passed over, whatever stands behind them.
proof fn lemma_manifest_extends(bytes: Seq<u8>, tail: Seq<u8>, position: int)
    requires
        0 <= position <= bytes.len(),
        manifest_from(bytes, position, None) == Err::<Seq<u8>, Rejection>(Rejection::ManifestAbsent),
    ensures
        manifest_from(bytes + tail, position, None) == manifest_from(bytes + tail, bytes.len() as int, None),
    decreases bytes.len() - position,
{
    if position < bytes.len() {
        lemma_leb_not_absent(bytes, position + 1, 0);
        lemma_section_extends(bytes, tail, position);
        let (id, start, end) = section_at(bytes, position)->Ok_0;
        lemma_custom_not_absent(id, bytes.subrange(start, end));
        match custom_of(id, bytes.subrange(start, end)) {
            Ok(Some((name, contents))) => {
                if name == encode_utf8(MANIFEST_SECTION@) {
                    lemma_found_stays(bytes, end, contents);
                }
            },
            _ => {},
        }
        lemma_manifest_extends(bytes, tail, end);
    }
}

/// Once a manifest was found, none is reported absent.
proof fn lemma_found_stays(bytes: Seq<u8>, position: int, manifest: Seq<u8>)
    ensures
        manifest_from(bytes, position, Some(manifest)) != Err::<Seq<u8>, Rejection>(Rejection::ManifestAbsent),
    decreases bytes.len() - position,
{
    if position < bytes.len() {
        match section_at(bytes, position) {
            Ok((id, start, end)) => {
                lemma_leb_bounds(bytes, position + 1, 0);
                lemma_custom_not_absent(id, bytes.subrange(start, end));
                lemma_found_stays(bytes, end, manifest);
            },
            Err(_) => {
                lemma_leb_not_absent(bytes, position + 1, 0);
            },
        }
    }
}

proof fn lemma_leb_not_absent(bytes: Seq<u8>, position: int, index: int)
    ensures
        leb_from(bytes, position, index) != Err::<(int, int), Rejection>(Rejection::ManifestAbsent),
    decreases 5 - index,
{
    if 0 <= position < bytes.len() && index < 5 {
        lemma_leb_not_absent(bytes, position + 1, index + 1);
    }
}

proof fn lemma_custom_not_absent(id: u8, contents: Seq<u8>)
    ensures
        custom_of(id, contents) != Err::<Option<(Seq<u8>, Seq<u8>)>, Rejection>(Rejection::ManifestAbsent),
{
    lemma_leb_not_absent(contents, 0, 0);
}

/// What stands behind the component in its stamped form is one custom section.
proof fn lemma_stamp_section(component: Seq<u8>, manifest: Seq<u8>)
    requires
        manifest_payload(manifest).len() <= u32::MAX,
    ensures
        ({
            let bytes = stamped(component, manifest);
            let payload = manifest_payload(manifest);
            let start = component.len() + 1 + leb_bytes(payload.len()).len();
            &&& section_at(bytes, component.len() as int) == Ok::<(u8, int, int), Rejection>(
                (0u8, start as int, bytes.len() as int),
            )
            &&& bytes.subrange(start as int, bytes.len() as int) == payload
            &&& custom_of(0, payload) == Ok::<Option<(Seq<u8>, Seq<u8>)>, Rejection>(
                Some((encode_utf8(MANIFEST_SECTION@), manifest)),
            )
        }),
{
    let bytes = stamped(component, manifest);
    let payload = manifest_payload(manifest);
    let name = encode_utf8(MANIFEST_SECTION@);
    let start = component.len() + 1 + leb_bytes(payload.len()).len();
    lemma_names();
    assert(bytes =~= (component + seq![0u8]) + leb_bytes(payload.len()) + payload);
    law_leb_round_trip(component + seq![0u8], payload.len(), payload);
    assert(bytes[component.len() as int] == 0);
    assert(bytes.subrange(start as int, bytes.len() as int) =~= payload);
    assert(payload =~= Seq::<u8>::empty() + leb_bytes(name.len()) + (name + manifest));
    law_leb_round_trip(Seq::empty(), name.len(), name + manifest);
    let from = leb_bytes(name.len()).len() as int;
    assert(payload.subrange(from, from + name.len()) =~= name);
    assert(payload.subrange(from + name.len(), payload.len() as int) =~= manifest);
}

/// Whatever is stamped is read back: the manifest of a stamped component is the stamped
/// manifest, byte for byte, behind the bytes of the component.
pub proof fn law_stamp_reads_back(component: Seq<u8>, manifest: Seq<u8>, document: Result<(), Vec<Finding>>)
    requires
        stamp_fault(component, manifest, document) is None,
    ensures
        manifest_of(stamped(component, manifest)) == Ok::<Seq<u8>, Rejection>(manifest),
        stamped(component, manifest).subrange(0, component.len() as int) == component,
{
    let bytes = stamped(component, manifest);
    let tail = seq![0u8] + leb_bytes(manifest_payload(manifest).len()) + manifest_payload(manifest);
    lemma_stamp_section(component, manifest);
    lemma_header_stays(component, tail);
    assert(bytes == component + tail);
    lemma_manifest_extends(component, tail, 8);
    reveal_with_fuel(manifest_from, 3);
    law_stamp_keeps_component(component, manifest);
}

proof fn lemma_header_stays(component: Seq<u8>, tail: Seq<u8>)
    requires
        header_of(component) is Ok,
        (component + tail).len() <= MAX_COMPONENT_BYTES,
    ensures
        header_of(component + tail) is Ok,
        forall|index: int| 0 <= index < 8 ==> (component + tail)[index] == component[index],
{
}

/// A component is stamped at most once: stamping a stamped component is refused, whatever
/// the second manifest is.
pub proof fn law_stamp_once(
    component: Seq<u8>,
    manifest: Seq<u8>,
    document: Result<(), Vec<Finding>>,
    other: Seq<u8>,
    verdict: Result<(), Vec<Finding>>,
)
    requires
        stamp_fault(component, manifest, document) is None,
    ensures
        stamp_fault(stamped(component, manifest), other, verdict) == Some(
            ComponentError::Rejected(Rejection::AlreadyStamped),
        ),
        Rejection::AlreadyStamped.code_spec() == "EXTENSION_ALREADY_STAMPED"@,
{
    law_stamp_reads_back(component, manifest, document);
}

/// Sections that were read before are read the same with more bytes behind.
proof fn lemma_parts_extend(
    bytes: Seq<u8>,
    tail: Seq<u8>,
    component: bool,
    position: int,
    parts: Seq<Seq<u8>>,
    depth: int,
)
    requires
        0 <= position <= bytes.len(),
        parts_from(bytes, component, position, parts, depth) is Ok,
    ensures
        parts_from(bytes + tail, component, position, parts, depth) == parts_from(
            bytes + tail,
            component,
            bytes.len() as int,
            parts_from(bytes, component, position, parts, depth)->Ok_0,
            depth,
        ),
    decreases bytes.len() - position,
{
    if position < bytes.len() {
        lemma_section_extends(bytes, tail, position);
        let (id, start, end) = section_at(bytes, position)->Ok_0;
        let contents = bytes.subrange(start, end);
        match custom_of(id, contents) {
            Ok(Some((name, part))) => {
                if component || name != encode_utf8(PARTS_SECTION@) {
                    lemma_parts_extend(bytes, tail, component, end, parts, depth);
                } else {
                    lemma_parts_extend(bytes, tail, component, end, parts.push(part), depth);
                }
            },
            Ok(None) => {
                if component && (id == 1 || id == 4) {
                    let nested = parts_in(contents, parts, depth + 1)->Ok_0;
                    lemma_parts_extend(bytes, tail, component, end, nested, depth);
                } else {
                    lemma_parts_extend(bytes, tail, component, end, parts, depth);
                }
            },
            Err(_) => {},
        }
    }
}

/// Stamping leaves the build declarations of a component as they were.
pub proof fn law_stamp_keeps_parts(component: Seq<u8>, manifest: Seq<u8>)
    requires
        parts_of(component) is Ok,
        stamped(component, manifest).len() <= MAX_COMPONENT_BYTES,
    ensures
        parts_of(stamped(component, manifest)) == parts_of(component),
{
    let bytes = stamped(component, manifest);
    let tail = seq![0u8] + leb_bytes(manifest_payload(manifest).len()) + manifest_payload(manifest);
    lemma_stamp_section(component, manifest);
    lemma_header_stays(component, tail);
    assert(bytes == component + tail);
    lemma_parts_extend(component, tail, true, 8, Seq::empty(), 0);
    reveal_with_fuel(parts_from, 3);
}

/// Stamping changes no byte of the component: the stamped bytes begin with it.
pub proof fn law_stamp_keeps_component(component: Seq<u8>, manifest: Seq<u8>)
    ensures
        stamped(component, manifest).subrange(0, component.len() as int) == component,
{
    assert(stamped(component, manifest).subrange(0, component.len() as int) =~= component);
}

/// `bytes` with one more section of the given id, whose length is written so.
pub open spec fn with_section(bytes: Seq<u8>, id: u8, length: Seq<u8>, contents: Seq<u8>) -> Seq<u8> {
    bytes + (seq![id] + length + contents)
}

/// Only a custom section of the component itself, of the one name, is taken for a manifest:
/// one more section of another kind or name, a nested module or component among them,
/// changes nothing in the manifest of a component, nor in its absence. `length` is any
/// encoding of the section's length that is read as such.
pub proof fn law_nested_manifest_is_ignored(component: Seq<u8>, id: u8, length: Seq<u8>, contents: Seq<u8>)
    requires
        leb_from(length, 0, 0) == Ok::<(int, int), Rejection>((contents.len() as int, length.len() as int)),
        custom_of(id, contents) is Ok,
        custom_of(id, contents)->Ok_0 matches Some((name, _)) ==> name != encode_utf8(MANIFEST_SECTION@),
        manifest_of(component) is Ok || manifest_of(component) == Err::<Seq<u8>, Rejection>(Rejection::ManifestAbsent),
        with_section(component, id, length, contents).len() <= MAX_COMPONENT_BYTES,
    ensures
        manifest_of(with_section(component, id, length, contents)) == manifest_of(component),
{
    let bytes = with_section(component, id, length, contents);
    let tail = seq![id] + length + contents;
    lemma_header_stays(component, tail);
    if manifest_of(component) is Ok {
        lemma_manifest_passes(component, tail, 8, None);
    } else {
        lemma_manifest_extends(component, tail, 8);
    }
    assert(bytes =~= (component + seq![id]) + length + contents);
    lemma_leb_within(component + seq![id], length, contents, 0, 0);
    let start = component.len() + 1 + length.len();
    assert(bytes.subrange(start as int, bytes.len() as int) =~= contents);
    reveal_with_fuel(manifest_from, 3);
}

/// A number is read alike wherever it stands.
proof fn lemma_leb_within(prefix: Seq<u8>, number: Seq<u8>, suffix: Seq<u8>, position: int, index: int)
    requires
        0 <= position,
        leb_from(number, position, index) is Ok,
    ensures
        leb_from(prefix + number + suffix, prefix.len() + position, index) == Ok::<(int, int), Rejection>(
            (
                leb_from(number, position, index)->Ok_0.0,
                prefix.len() + leb_from(number, position, index)->Ok_0.1,
            ),
        ),
    decreases 5 - index,
{
    assert((prefix + number + suffix)[prefix.len() + position] == number[position]);
    if number[position] >= 0x80 {
        lemma_leb_within(prefix, number, suffix, position + 1, index + 1);
    }
}

/// Sections with one manifest are passed over, whatever stands behind them.
proof fn lemma_manifest_passes(bytes: Seq<u8>, tail: Seq<u8>, position: int, found: Option<Seq<u8>>)
    requires
        0 <= position <= bytes.len(),
        manifest_from(bytes, position, found) is Ok,
    ensures
        manifest_from(bytes + tail, position, found) == manifest_from(
            bytes + tail,
            bytes.len() as int,
            Some(manifest_from(bytes, position, found)->Ok_0),
        ),
    decreases bytes.len() - position,
{
    if position < bytes.len() {
        lemma_section_extends(bytes, tail, position);
        let (id, start, end) = section_at(bytes, position)->Ok_0;
        match custom_of(id, bytes.subrange(start, end)) {
            Ok(Some((name, contents))) => {
                if name == encode_utf8(MANIFEST_SECTION@) {
                    lemma_manifest_passes(bytes, tail, end, Some(contents));
                } else {
                    lemma_manifest_passes(bytes, tail, end, found);
                }
            },
            _ => {
                lemma_manifest_passes(bytes, tail, end, found);
            },
        }
    }
}

/// Checks that a component embeds what its declarations assemble to.
///
/// `validated` is what the world and document validators say of the component,
/// `assembled` what its declarations assemble to. The first fault counts, in the
/// order validation, manifest, declarations, assembly, comparison.
pub fn check_component(
    component: &[u8],
    validated: Result<(), ComponentError>,
    assembled: Result<Vec<u8>, ComponentError>,
) -> (checked: Result<(), ComponentError>)
    ensures
        validated is Err ==> checked == validated,
        validated is Ok ==> match manifest_of(component@) {
            Err(rejection) => checked == Err::<(), _>(ComponentError::Rejected(rejection)),
            Ok(manifest) => match parts_of(component@) {
                Err(rejection) => checked == Err::<(), _>(ComponentError::Assembly(rejection)),
                Ok(_) => match assembled {
                    Err(error) => checked == Err::<(), _>(error),
                    Ok(bytes) => if bytes@ == manifest {
                        checked is Ok
                    } else {
                        checked == Err::<(), _>(ComponentError::Rejected(Rejection::ManifestMismatch))
                    },
                },
            },
        },
{
    match validated {
        Ok(_) => {},
        Err(error) => return Err(error),
    }
    let embedded = match extract_manifest(component) {
        Ok(embedded) => embedded,
        Err(error) => return Err(error),
    };
    match extract_parts(component) {
        Ok(_) => {},
        Err(error) => return Err(error),
    }
    match assembled {
        Err(error) => Err(error),
        Ok(bytes) => {
            if same_bytes(embedded, bytes.as_slice()) {
                Ok(())
            } else {
                Err(ComponentError::Rejected(Rejection::ManifestMismatch))
            }
        },
    }
}

/// A section is what stands behind its id and its length, wherever it stands; one that is
/// cut short is refused.
pub proof fn law_sections(before: Seq<u8>, id: u8, length: Seq<u8>, size: int, behind: Seq<u8>)
    requires
        leb_from(length, 0, 0) == Ok::<(int, int), Rejection>((size, length.len() as int)),
    ensures
        ({
            let bytes = before + seq![id] + length + behind;
            let start = before.len() + 1 + length.len();
            &&& size <= behind.len() ==> section_at(bytes, before.len() as int) == Ok::<(u8, int, int), Rejection>(
                (id, start as int, start + size),
            ) && bytes.subrange(start as int, start + size) == behind.take(size)
            &&& size > behind.len() ==> section_at(bytes, before.len() as int) == Err::<(u8, int, int), Rejection>(
                Rejection::SectionOverrun,
            )
        }),
{
    let bytes = before + seq![id] + length + behind;
    let start = before.len() + 1 + length.len();
    lemma_leb_within(before + seq![id], length, behind, 0, 0);
    lemma_leb_bounds(length, 0, 0);
    assert(bytes[before.len() as int] == id);
    if size <= behind.len() {
        assert(bytes.subrange(start as int, start + size) =~= behind.take(size));
    }
}

/// A custom section is its name, behind the length of the name, and then its contents; no
/// other section is one.
pub proof fn law_custom_sections(id: u8, length: Seq<u8>, name: Seq<u8>, contents: Seq<u8>)
    requires
        leb_from(length, 0, 0) == Ok::<(int, int), Rejection>((name.len() as int, length.len() as int)),
    ensures
        id == 0 && valid_utf8(name) ==> custom_of(id, length + name + contents) == Ok::<
            Option<(Seq<u8>, Seq<u8>)>,
            Rejection,
        >(Some((name, contents))),
        id == 0 && !valid_utf8(name) ==> custom_of(id, length + name + contents) == Err::<
            Option<(Seq<u8>, Seq<u8>)>,
            Rejection,
        >(Rejection::NameNotText),
        id != 0 ==> custom_of(id, length + name + contents) == Ok::<Option<(Seq<u8>, Seq<u8>)>, Rejection>(None),
{
    let bytes = length + name + contents;
    assert(bytes =~= Seq::<u8>::empty() + length + (name + contents));
    lemma_leb_within(Seq::empty(), length, name + contents, 0, 0);
    assert(bytes.subrange(length.len() as int, (length.len() + name.len()) as int) =~= name);
    assert(bytes.subrange((length.len() + name.len()) as int, bytes.len() as int) =~= contents);
}

/// A component starts with the four bytes of WebAssembly, and the layer of components in its
/// last two, and has at most 64 mebibytes.
pub proof fn law_headers(bytes: Seq<u8>)
    ensures
        header_of(bytes) is Ok <==> {
            &&& 8 <= bytes.len() <= 67_108_864
            &&& bytes.take(4) == seq![0u8, 0x61, 0x73, 0x6d]
            &&& bytes[6] == 1 && bytes[7] == 0
        },
        header_of(bytes) == Err::<(), Rejection>(Rejection::ComponentTooLarge) ==> bytes.len() > 67_108_864,
{
    if bytes.len() >= 8 {
        if bytes.take(4) == seq![0u8, 0x61, 0x73, 0x6d] {
            assert(bytes[0] == bytes.take(4)[0]);
            assert(bytes[1] == bytes.take(4)[1]);
            assert(bytes[2] == bytes.take(4)[2]);
            assert(bytes[3] == bytes.take(4)[3]);
        } else if has_magic(bytes) {
            assert(bytes.take(4) =~= seq![0u8, 0x61, 0x73, 0x6d]);
        }
    }
}

proof fn lemma_last_section(bytes: Seq<u8>, id: u8, length: Seq<u8>, contents: Seq<u8>)
    requires
        leb_from(length, 0, 0) == Ok::<(int, int), Rejection>((contents.len() as int, length.len() as int)),
    ensures
        ({
            let longer = with_section(bytes, id, length, contents);
            let start = bytes.len() + 1 + length.len();
            &&& section_at(longer, bytes.len() as int) == Ok::<(u8, int, int), Rejection>(
                (id, start as int, longer.len() as int),
            )
            &&& longer.subrange(start as int, longer.len() as int) == contents
        }),
{
    law_sections(bytes, id, length, contents.len() as int, contents);
    assert(with_section(bytes, id, length, contents) =~= bytes + seq![id] + length + contents);
    assert(contents.take(contents.len() as int) =~= contents);
}

/// A component with one section of the manifest's name holds its contents as its manifest,
/// where they are at most 256 kibibytes; a second such section is refused, whatever it
/// holds.
pub proof fn law_one_manifest(component: Seq<u8>, length: Seq<u8>, contents: Seq<u8>, manifest: Seq<u8>)
    requires
        leb_from(length, 0, 0) == Ok::<(int, int), Rejection>((contents.len() as int, length.len() as int)),
        custom_of(0, contents) == Ok::<Option<(Seq<u8>, Seq<u8>)>, Rejection>(
            Some((encode_utf8("sloper:manifest"@), manifest)),
        ),
        with_section(component, 0, length, contents).len() <= MAX_COMPONENT_BYTES,
    ensures
        ({
            let longer = with_section(component, 0, length, contents);
            &&& manifest_of(component) is Ok ==> manifest_of(longer) == Err::<Seq<u8>, Rejection>(
                Rejection::ManifestDuplicated,
            )
            &&& manifest_of(component) == Err::<Seq<u8>, Rejection>(Rejection::ManifestAbsent) && manifest.len()
                <= 262_144 ==> manifest_of(longer) == Ok::<Seq<u8>, Rejection>(manifest)
            &&& manifest_of(component) == Err::<Seq<u8>, Rejection>(Rejection::ManifestAbsent) && manifest.len()
                > 262_144 ==> manifest_of(longer) == Err::<Seq<u8>, Rejection>(Rejection::ManifestTooLarge)
        }),
{
    let longer = with_section(component, 0, length, contents);
    let tail = seq![0u8] + length + contents;
    lemma_last_section(component, 0, length, contents);
    if manifest_of(component) is Ok {
        lemma_header_stays(component, tail);
        lemma_manifest_passes(component, tail, 8, None);
    } else if manifest_of(component) == Err::<Seq<u8>, Rejection>(Rejection::ManifestAbsent) {
        lemma_header_stays(component, tail);
        lemma_manifest_extends(component, tail, 8);
    }
    reveal_with_fuel(manifest_from, 3);
}

/// Every declaration section of a module is collected, in its order, as long as it is at
/// most 256 kibibytes and there are at most 105; a section of another name adds nothing.
pub proof fn law_declarations_are_collected(
    module: Seq<u8>,
    length: Seq<u8>,
    contents: Seq<u8>,
    name: Seq<u8>,
    part: Seq<u8>,
    parts: Seq<Seq<u8>>,
    depth: int,
)
    requires
        leb_from(length, 0, 0) == Ok::<(int, int), Rejection>((contents.len() as int, length.len() as int)),
        custom_of(0, contents) == Ok::<Option<(Seq<u8>, Seq<u8>)>, Rejection>(Some((name, part))),
        module.len() >= 8,
        depth <= 32,
        parts_from(module, false, 8, parts, depth) is Ok,
    ensures
        ({
            let longer = with_section(module, 0, length, contents);
            let found = parts_from(module, false, 8, parts, depth)->Ok_0;
            let collected = parts_from(longer, false, 8, parts, depth);
            &&& name == encode_utf8("sloper:parts"@) && part.len() <= 262_144 && found.len() < 105 ==> collected == Ok::<
                Seq<Seq<u8>>,
                Rejection,
            >(found.push(part))
            &&& name == encode_utf8("sloper:parts"@) && (part.len() > 262_144 || found.len() >= 105) ==> collected == Err::<
                Seq<Seq<u8>>,
                Rejection,
            >(Rejection::PartsOutOfBounds)
            &&& name != encode_utf8("sloper:parts"@) ==> collected == Ok::<Seq<Seq<u8>>, Rejection>(found)
        }),
{
    lemma_last_section(module, 0, length, contents);
    lemma_parts_extend(module, seq![0u8] + length + contents, false, 8, parts, depth);
    reveal_with_fuel(parts_from, 3);
}

/// The declarations of a module or a component that is nested in a component are collected
/// with its own; what is nested has to be of the layer that its section says.
pub proof fn law_nested_declarations_are_collected(
    component: Seq<u8>,
    id: u8,
    length: Seq<u8>,
    contents: Seq<u8>,
    parts: Seq<Seq<u8>>,
    depth: int,
)
    requires
        id == 1 || id == 4,
        leb_from(length, 0, 0) == Ok::<(int, int), Rejection>((contents.len() as int, length.len() as int)),
        component.len() >= 8,
        depth <= 32,
        parts_from(component, true, 8, parts, depth) is Ok,
    ensures
        ({
            let longer = with_section(component, id, length, contents);
            let found = parts_from(component, true, 8, parts, depth)->Ok_0;
            let layered = contents.len() >= 8 && contents[7] == 0 && (id == 1 ==> contents[6] == 0) && (id == 4
                ==> contents[6] == 1);
            &&& layered ==> parts_from(longer, true, 8, parts, depth) == parts_in(contents, found, depth + 1)
            &&& !layered ==> parts_from(longer, true, 8, parts, depth) == Err::<Seq<Seq<u8>>, Rejection>(
                Rejection::NestedLayerInvalid,
            )
        }),
{
    lemma_last_section(component, id, length, contents);
    lemma_parts_extend(component, seq![id] + length + contents, true, 8, parts, depth);
    reveal_with_fuel(parts_from, 3);
}

/// What is nested is read as a module of version 1, or as a component, down to a depth of
/// 32, and is refused otherwise.
pub proof fn law_nested_binaries(bytes: Seq<u8>, parts: Seq<Seq<u8>>, depth: int)
    requires
        bytes.len() >= 8,
    ensures
        ({
            let magic = bytes[0] == 0 && bytes[1] == 0x61 && bytes[2] == 0x73 && bytes[3] == 0x6d;
            let module = bytes[4] == 1 && bytes[5] == 0 && bytes[6] == 0 && bytes[7] == 0;
            let component = bytes[6] == 1 && bytes[7] == 0;
            let read = parts_in(bytes, parts, depth);
            &&& depth > 32 || !magic ==> read == Err::<Seq<Seq<u8>>, Rejection>(Rejection::NestingInvalid)
            &&& depth <= 32 && magic && module ==> read == parts_from(bytes, false, 8, parts, depth)
            &&& depth <= 32 && magic && component ==> read == parts_from(bytes, true, 8, parts, depth)
            &&& depth <= 32 && magic && !module && !component ==> read == Err::<Seq<Seq<u8>>, Rejection>(
                Rejection::NestedHeaderInvalid,
            )
        }),
{
}

/// The findings on a refused component: those of its manifest as they are, and one for any
/// other fault, with the code of the fault.
pub proof fn law_findings_of_faults(fault: Fault)
    ensures
        fault matches Fault::Manifest(findings) ==> fault_findings(fault) == findings,
        !(fault is Manifest) ==> fault_findings(fault).len() == 1,
        fault matches Fault::Rejected(rejection) ==> fault_findings(fault)[0].code == rejection.code_spec()
            && fault_findings(fault)[0].message == rejection.message_spec(),
        fault is Assembly ==> fault_findings(fault)[0].code == "EXTENSION_PARTS_INVALID"@,
        fault is World ==> fault_findings(fault)[0].code == "MANIFEST_WORLD_INVALID"@,
{
}

} // verus!

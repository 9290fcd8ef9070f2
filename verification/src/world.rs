//! The world that a component has to implement.

use vstd::prelude::*;
use vstd::string::*;

use wit_component::DecodedWasm;
use wit_parser::{PackageId, Resolve, World, WorldId, WorldItem, WorldKey};

use crate::binary::{decodes, is_package, shape, Shape};
use crate::component::{extract_manifest, finding_views, manifest_of, ComponentError, Fault, Finding, FindingView};
use crate::envelope::Rejection;
use crate::json::Json;
use crate::primitives::{parse_version, semantic_version, version_view, SemanticVersion, SemanticVersionView};
use crate::release::pairs_of;
use crate::text::{
    byte_count, byte_len, cut_last, cut_last_text, decimal, holds_text, join_texts, joined, joined_by,
    law_cut_at_the_last, lines_of, push_text, replace_text, replaced, same_text, split_lines, starts_behind_space,
    strip_prefix, texts, trimmed_start, write_decimal,
};

verus! {

/// An export of a world.
pub struct Export {
    pub name: String,
    /// The names of its functions, where it is an interface.
    pub functions: Option<Vec<String>>,
}

/// What an export is.
pub ghost struct ExportView {
    pub name: Seq<char>,
    pub functions: Option<Seq<Seq<char>>>,
}

impl View for Export {
    type V = ExportView;

    open spec fn view(&self) -> ExportView {
        ExportView {
            name: self.name@,
            functions: match self.functions {
                Some(functions) => Some(texts(functions@)),
                None => None,
            },
        }
    }
}

/// The exports and the names of the imports of a world.
pub struct ComponentWorld {
    pub exports: Vec<Export>,
    pub imports: Vec<String>,
}

/// What a world is.
pub ghost struct WorldView {
    pub exports: Seq<ExportView>,
    pub imports: Seq<Seq<char>>,
}

impl View for ComponentWorld {
    type V = WorldView;

    open spec fn view(&self) -> WorldView {
        WorldView {
            exports: self.exports@.map_values(|export: Export| export@),
            imports: texts(self.imports@),
        }
    }
}

/// The most items of WIT documents that may refer to one another in a row.
pub const MAX_CHAIN: usize = 3000;

/// A WIT document: the name of its file, and its text.
pub type Document = (String, String);

/// The world that the bytes of a component decode to; `None` where they do not.
pub uninterp spec fn decoded_component(component: Seq<u8>) -> Option<WorldView>;

/// Decodes a component with `wit_component::decode`, and reads the names of the
/// world's exports and imports with `name_world_key` of wit-parser's `Resolve`. What
/// comes back depends on the bytes alone. The decoder gives up with a panic on some
/// components that satisfy its validator; none of these is among those that `decodes`
/// admits.
#[verifier::external_body]
pub(crate) fn decode_component(component: &[u8]) -> (decoded: Option<ComponentWorld>)
    requires
        decodes(component@),
    ensures
        match decoded {
            Some(decoded) => decoded_component(component@) == Some(decoded@),
            None => decoded_component(component@) is None,
        },
{
    let DecodedWasm::Component(resolve, id) = wit_component::decode(component).ok()? else {
        return None;
    };
    let World { exports, imports, .. } = &resolve.worlds[id];
    let name = |key: &WorldKey| resolve.name_world_key(key);
    let export = |(key, item): (&WorldKey, &WorldItem)| Export {
        name: name(key),
        functions: match item {
            WorldItem::Interface { id, .. } => Some(resolve.interfaces[*id].functions.keys().cloned().collect()),
            _ => None,
        },
    };
    let imports = imports.keys().map(name).collect();
    Some(ComponentWorld { exports: exports.iter().map(export).collect(), imports })
}

/// A parsed WIT document of wit-parser.
#[verifier::external_type_specification]
#[verifier::external_body]
pub struct ExternalGroup(wit_parser::UnresolvedPackageGroup);

/// A `Resolve` of wit-parser, the package that was added to it last, and the worlds that
/// were selected in it.
#[verifier::external_body]
pub struct Resolver {
    resolve: Resolve,
    package: Option<PackageId>,
    worlds: Vec<WorldId>,
}

/// A WIT document with the documents that it refers to, each a file name and its text.
pub ghost struct GroupView {
    pub main: (Seq<char>, Seq<char>),
    pub documents: Seq<(Seq<char>, Seq<char>)>,
}

/// What was done to a resolver.
pub ghost struct ResolverView {
    /// The documents that were added, in their order.
    pub groups: Seq<GroupView>,
    /// The worlds that were selected: how many groups there were, and the name in the last.
    pub worlds: Seq<(nat, Seq<char>)>,
    /// The worlds to which the imports of others were added: the index of the one, and of
    /// the other.
    pub additions: Seq<(nat, nat)>,
}

/// What was done to a resolver.
pub uninterp spec fn resolved(resolver: Resolver) -> ResolverView;

/// The document that was parsed.
pub uninterp spec fn document_of(group: wit_parser::UnresolvedPackageGroup) -> (Seq<char>, Seq<char>);

/// The documents that were parsed.
pub open spec fn documents_of(groups: Seq<wit_parser::UnresolvedPackageGroup>) -> Seq<(Seq<char>, Seq<char>)> {
    groups.map_values(|group: wit_parser::UnresolvedPackageGroup| document_of(group))
}

/// The group of a parsed document and of those that it refers to.
pub open spec fn group_of(
    main: wit_parser::UnresolvedPackageGroup,
    documents: Seq<wit_parser::UnresolvedPackageGroup>,
) -> GroupView {
    GroupView { main: document_of(main), documents: documents_of(documents) }
}

/// A package of a WIT document.
pub struct PackageSummary {
    /// Its name, with its version.
    pub name: String,
    /// The names of the packages that it refers to.
    pub foreign: Vec<String>,
    /// How many types it defines or refers to.
    pub types: usize,
    /// How many interfaces it defines or refers to.
    pub interfaces: usize,
    /// How many worlds it defines or refers to.
    pub worlds: usize,
}

/// What a package of a WIT document is.
pub ghost struct PackageView {
    pub name: Seq<char>,
    pub foreign: Seq<Seq<char>>,
    pub types: nat,
    pub interfaces: nat,
    pub worlds: nat,
}

impl View for PackageSummary {
    type V = PackageView;

    open spec fn view(&self) -> PackageView {
        PackageView {
            name: self.name@,
            foreign: texts(self.foreign@),
            types: self.types as nat,
            interfaces: self.interfaces as nat,
            worlds: self.worlds as nat,
        }
    }
}

/// What packages are.
pub open spec fn package_views(packages: Seq<PackageSummary>) -> Seq<PackageView> {
    packages.map_values(|package: PackageSummary| package@)
}

/// The packages of a document that is WIT.
pub uninterp spec fn packages_in(path: Seq<char>, text: Seq<char>) -> Seq<PackageView>;

/// The packages of the first `end` documents.
pub open spec fn packages_before(documents: Seq<(Seq<char>, Seq<char>)>, end: nat) -> Seq<PackageView>
    decreases end,
{
    if end == 0 {
        Seq::empty()
    } else {
        packages_before(documents, (end - 1) as nat) + packages_in(documents[end - 1].0, documents[end - 1].1)
    }
}

/// The packages of a group.
pub open spec fn group_packages(group: GroupView) -> Seq<PackageView> {
    packages_before(group.documents, group.documents.len()) + packages_in(group.main.0, group.main.1)
}

/// The packages of the first `end` groups.
pub open spec fn packages_until(groups: Seq<GroupView>, end: nat) -> Seq<PackageView>
    decreases end,
{
    if end == 0 {
        Seq::empty()
    } else {
        packages_until(groups, (end - 1) as nat) + group_packages(groups[end - 1])
    }
}

/// One of the packages has this name.
pub open spec fn has_package(packages: Seq<PackageView>, name: Seq<char>) -> bool {
    exists|index: int| 0 <= index < packages.len() && (#[trigger] packages[index]).name == name
}

/// No package has a name that one of the others has.
pub open spec fn are_new(packages: Seq<PackageView>, others: Seq<PackageView>) -> bool {
    forall|index: int| 0 <= index < packages.len() ==> !has_package(others, (#[trigger] packages[index]).name)
}

/// The packages refer to one another alone.
pub open spec fn are_closed(packages: Seq<PackageView>) -> bool {
    forall|index: int, place: int|
        0 <= index < packages.len() && 0 <= place < packages[index].foreign.len() ==> has_package(
            packages,
            #[trigger] packages[index].foreign[place],
        )
}

/// How many items a package has, with itself.
pub open spec fn package_size(package: PackageView) -> nat {
    1 + package.types + package.interfaces + package.worlds
}

/// How many items the first `end` packages have.
pub open spec fn sizes_before(packages: Seq<PackageView>, end: nat) -> nat
    decreases end,
{
    if end == 0 {
        0
    } else {
        sizes_before(packages, (end - 1) as nat) + package_size(packages[end - 1])
    }
}

/// How many items can refer to one another in a row in packages that are added where at most
/// `before` could.
pub open spec fn chain_of(packages: Seq<PackageView>, before: nat) -> nat {
    sizes_before(packages, packages.len()) + if are_closed(packages) {
        0
    } else {
        before
    }
}

/// How many items can refer to one another in a row in the first `end` groups.
pub open spec fn chain_until(groups: Seq<GroupView>, end: nat) -> nat
    decreases end,
{
    if end == 0 {
        0
    } else {
        let before = chain_until(groups, (end - 1) as nat);
        let added = chain_of(group_packages(groups[end - 1]), before);
        if before < added {
            added
        } else {
            before
        }
    }
}

/// The text of a document is WIT.
pub uninterp spec fn document_parses(path: Seq<char>, text: Seq<char>) -> bool;

/// Whether documents can be added to a resolver to which this was done.
pub uninterp spec fn group_resolves(before: ResolverView, group: GroupView) -> bool;

/// Whether the group that was added last has a world of this name.
pub uninterp spec fn world_exists(before: ResolverView, name: Seq<char>) -> bool;

/// The names of the exports and of the imports of the selected world at `index`.
pub uninterp spec fn world_keys(resolver: ResolverView, index: nat) -> (Seq<Seq<char>>, Seq<Seq<char>>);

/// A component conforms to the selected world at `index`.
pub uninterp spec fn world_targets(resolver: ResolverView, index: nat, component: Seq<u8>) -> bool;

/// How much room a document takes: its bytes, and a line break.
pub open spec fn room_of(document: (Seq<char>, Seq<char>)) -> nat {
    byte_count(document.1) + 1
}

/// How much room the first `end` documents take.
pub open spec fn room_before(documents: Seq<(Seq<char>, Seq<char>)>, end: nat) -> nat
    decreases end,
{
    if end == 0 {
        0
    } else {
        room_before(documents, (end - 1) as nat) + room_of(documents[end - 1])
    }
}

/// How much room a group takes.
pub open spec fn group_room(group: GroupView) -> nat {
    room_before(group.documents, group.documents.len()) + room_of(group.main)
}

/// How much room the first `end` groups take.
pub open spec fn rooms_before(groups: Seq<GroupView>, end: nat) -> nat
    decreases end,
{
    if end == 0 {
        0
    } else {
        rooms_before(groups, (end - 1) as nat) + group_room(groups[end - 1])
    }
}

/// How much room all groups take.
pub open spec fn total_room(groups: Seq<GroupView>) -> nat {
    rooms_before(groups, groups.len())
}

/// The packages of a group are new, and the items that refer to one another in a row are few.
pub open spec fn fits_chain(groups: Seq<GroupView>, group: GroupView) -> bool {
    &&& are_new(group_packages(group), packages_until(groups, groups.len()))
    &&& chain_of(group_packages(group), chain_until(groups, groups.len())) <= MAX_CHAIN
}

/// What was done after a group was added.
pub open spec fn with_group(before: ResolverView, group: GroupView) -> ResolverView {
    ResolverView { groups: before.groups.push(group), ..before }
}

/// What was done after a world was selected in the group that was added last.
pub open spec fn with_world(before: ResolverView, name: Seq<char>) -> ResolverView {
    ResolverView { worlds: before.worlds.push((before.groups.len(), name)), ..before }
}

/// What was done after the imports of the world selected last were added to the first.
pub open spec fn with_imports(before: ResolverView) -> ResolverView {
    ResolverView { additions: before.additions.push((0, (before.worlds.len() - 1) as nat)), ..before }
}

/// Nothing was done.
pub open spec fn nothing_resolved() -> ResolverView {
    ResolverView { groups: Seq::empty(), worlds: Seq::empty(), additions: Seq::empty() }
}

/// Makes an empty `Resolve` of wit-parser with `default`.
#[verifier::external_body]
fn new_resolver() -> (resolver: Resolver)
    ensures
        resolved(resolver) == nothing_resolved(),
{
    Resolver { resolve: Resolve::default(), package: None, worlds: Vec::new() }
}

/// Parses a document with `parse` of wit-parser's `UnresolvedPackageGroup`. Whether it is
/// WIT depends on its name and text alone; its length has to fit 32 bits.
#[verifier::external_body]
fn parse_document(path: &str, text: &str) -> (group: Option<wit_parser::UnresolvedPackageGroup>)
    requires
        room_of((path@, text@)) < u32::MAX,
    ensures
        match group {
            Some(group) => document_parses(path@, text@) && document_of(group) == (path@, text@),
            None => !document_parses(path@, text@),
        },
{
    wit_parser::UnresolvedPackageGroup::parse(path, text).ok()
}

/// Reads the packages of a parsed document: the name, the names of the packages that it
/// refers to, and the number of types, of interfaces and of worlds of each
/// `UnresolvedPackage` of wit-parser. They depend on the document alone.
#[verifier::external_body]
fn read_packages(group: &wit_parser::UnresolvedPackageGroup) -> (packages: Vec<PackageSummary>)
    ensures
        package_views(packages@) == packages_in(document_of(*group).0, document_of(*group).1),
{
    let summary = |package: &wit_parser::UnresolvedPackage| PackageSummary {
        name: package.name.to_string(),
        foreign: package.foreign_deps.keys().map(|name| name.to_string()).collect(),
        types: package.types.len(),
        interfaces: package.interfaces.len(),
        worlds: package.worlds.len(),
    };
    group.nested.iter().chain([&group.main]).map(summary).collect()
}

/// Adds a parsed document and those that it refers to with `push_groups` of wit-parser's
/// `Resolve`. Whether they resolve depends on what was added before and on the documents
/// alone. The length of all documents together has to fit 32 bits, no package may be added
/// again, and the types and interfaces that refer to one another in a row, which are followed
/// by recursion, have to be few.
#[verifier::external_body]
fn push_group(
    resolver: &mut Resolver,
    main: wit_parser::UnresolvedPackageGroup,
    documents: Vec<wit_parser::UnresolvedPackageGroup>,
) -> (pushed: bool)
    requires
        total_room(resolved(*old(resolver)).groups) + group_room(group_of(main, documents@)) < u32::MAX,
        fits_chain(resolved(*old(resolver)).groups, group_of(main, documents@)),
    ensures
        pushed == group_resolves(resolved(*old(resolver)), group_of(main, documents@)),
        pushed ==> resolved(*final(resolver)) == with_group(
            resolved(*old(resolver)),
            group_of(main, documents@),
        ),
{
    resolver.package = resolver.resolve.push_groups(main, documents).ok();
    resolver.package.is_some()
}

/// Selects a world of the package that was added last with `select_world` of wit-parser's
/// `Resolve`. Whether there is one depends on what was added and on the name alone.
#[verifier::external_body]
fn select_world(resolver: &mut Resolver, name: &str) -> (selected: bool)
    requires
        resolved(*old(resolver)).groups.len() > 0,
    ensures
        selected == world_exists(resolved(*old(resolver)), name@),
        selected ==> resolved(*final(resolver)) == with_world(resolved(*old(resolver)), name@),
{
    let Some(package) = resolver.package else {
        return false;
    };
    let world = resolver.resolve.select_world(&[package], Some(name)).ok();
    resolver.worlds.extend(world);
    world.is_some()
}

/// Reads the names of a world's exports and imports with `name_world_key` of wit-parser's
/// `Resolve`. They depend on what was added and selected alone.
#[verifier::external_body]
fn read_keys(resolver: &Resolver, index: usize) -> (keys: (Vec<String>, Vec<String>))
    requires
        index < resolved(*resolver).worlds.len(),
    ensures
        world_keys(resolved(*resolver), index as nat) == (texts(keys.0@), texts(keys.1@)),
{
    let world = &resolver.resolve.worlds[resolver.worlds[index]];
    let names = |key: &WorldKey| resolver.resolve.name_world_key(key);
    (world.exports.keys().map(names).collect(), world.imports.keys().map(names).collect())
}

/// Adds the imports of the world that was selected last to those of the first world with
/// `extend` of the map in which wit-parser keeps them.
#[verifier::external_body]
fn add_imports(resolver: &mut Resolver)
    requires
        resolved(*old(resolver)).worlds.len() > 0,
    ensures
        resolved(*final(resolver)) == with_imports(resolved(*old(resolver))),
{
    let last = resolver.worlds[resolver.worlds.len() - 1];
    let imports = resolver.resolve.worlds[last].imports.clone();
    resolver.resolve.worlds[resolver.worlds[0]].imports.extend(imports);
}

/// Compares a component with a world with `wit_component::targets`, which runs nothing. The
/// verdict depends on what was added and selected and on the bytes alone.
#[verifier::external_body]
fn check_target(resolver: &Resolver, index: usize, component: &[u8]) -> (conforms: bool)
    requires
        index < resolved(*resolver).worlds.len(),
    ensures
        conforms == world_targets(resolved(*resolver), index as nat, component@),
{
    wit_component::targets(&resolver.resolve, resolver.worlds[index], component, false).is_ok()
}

/// The WIT documents that the host implements.
pub struct HostWorld {
    /// The packages that the world refers to, each a file name and its text.
    pub packages: Vec<Document>,
    /// The text of the extension world.
    pub source: String,
}

/// The first fault of an export from `index` on: each has to be an interface whose
/// only function is `run`.
pub open spec fn exports_fault(exports: Seq<ExportView>, index: int) -> Option<Rejection>
    decreases exports.len() - index,
{
    if index < 0 || index >= exports.len() {
        None
    } else {
        match exports[index].functions {
            None => Some(Rejection::ExportNotInterface),
            Some(functions) => if functions.len() == 1 && functions[0] == "run"@ {
                exports_fault(exports, index + 1)
            } else {
                Some(Rejection::ExportFunctions)
            },
        }
    }
}

/// What is wrong with the exports of a component whose host expects exports of these
/// names, if anything.
pub open spec fn export_fault(exports: Seq<ExportView>, expected: Seq<Seq<char>>) -> Option<Rejection> {
    if (forall|i: int| 0 <= i < exports.len() ==> expected.contains((#[trigger] exports[i]).name)) && (forall|i: int|
        0 <= i < expected.len() ==> exports_name(exports, #[trigger] expected[i])) {
        exports_fault(exports, 0)
    } else {
        Some(Rejection::ExportsDiffer)
    }
}

/// An export has this name.
pub open spec fn exports_name(exports: Seq<ExportView>, name: Seq<char>) -> bool {
    exists|i: int| 0 <= i < exports.len() && (#[trigger] exports[i]).name == name
}

fn has_export(exports: &Vec<Export>, name: &str) -> (found: bool)
    ensures
        found == exports_name(exports@.map_values(|export: Export| export@), name@),
{
    let ghost shown = exports@.map_values(|export: Export| export@);
    let mut index: usize = 0;
    while index < exports.len()
        invariant
            index <= exports.len(),
            shown == exports@.map_values(|export: Export| export@),
            forall|i: int| 0 <= i < index ==> (#[trigger] shown[i]).name != name@,
        decreases exports.len() - index,
    {
        assert(shown[index as int] == exports@[index as int]@);
        if same_text(exports[index].name.as_str(), name) {
            return true;
        }
        index += 1;
    }
    false
}

/// Checks the exports of a component against the names that the host expects.
pub fn validate_exports(exports: &Vec<Export>, expected: &Vec<String>) -> (valid: Result<(), ComponentError>)
    ensures
        match export_fault(exports@.map_values(|export: Export| export@), texts(expected@)) {
            Some(rejection) => valid == Err::<(), _>(ComponentError::Rejected(rejection)),
            None => valid == Ok::<(), ComponentError>(()),
        },
{
    let ghost shown = exports@.map_values(|export: Export| export@);
    let ghost names = texts(expected@);
    let mut index: usize = 0;
    while index < exports.len()
        invariant
            index <= exports.len(),
            shown == exports@.map_values(|export: Export| export@),
            names == texts(expected@),
            forall|i: int| 0 <= i < index ==> names.contains((#[trigger] shown[i]).name),
        decreases exports.len() - index,
    {
        assert(shown[index as int] == exports@[index as int]@);
        if !holds_text(expected, exports[index].name.as_str()) {
            return Err(ComponentError::Rejected(Rejection::ExportsDiffer));
        }
        index += 1;
    }
    let mut index: usize = 0;
    while index < expected.len()
        invariant
            index <= expected.len(),
            shown == exports@.map_values(|export: Export| export@),
            names == texts(expected@),
            forall|i: int| 0 <= i < index ==> exports_name(shown, #[trigger] names[i]),
        decreases expected.len() - index,
    {
        assert(names[index as int] == expected@[index as int]@);
        if !has_export(exports, expected[index].as_str()) {
            return Err(ComponentError::Rejected(Rejection::ExportsDiffer));
        }
        index += 1;
    }
    let mut index: usize = 0;
    while index < exports.len()
        invariant
            index <= exports.len(),
            shown == exports@.map_values(|export: Export| export@),
            names == texts(expected@),
            forall|i: int| 0 <= i < shown.len() ==> names.contains((#[trigger] shown[i]).name),
            forall|i: int| 0 <= i < names.len() ==> exports_name(shown, #[trigger] names[i]),
            exports_fault(shown, 0) == exports_fault(shown, index as int),
        decreases exports.len() - index,
    {
        assert(shown[index as int] == exports@[index as int]@);
        match &exports[index].functions {
            None => return Err(ComponentError::Rejected(Rejection::ExportNotInterface)),
            Some(functions) => {
                if functions.len() != 1 || !same_text(functions[0].as_str(), "run") {
                    return Err(ComponentError::Rejected(Rejection::ExportFunctions));
                }
            },
        }
        index += 1;
    }
    Ok(())
}

/// What the host makes of an import.
pub ghost enum Import {
    /// The host offers it under its name.
    Offered,
    /// The host offers the interface, if the 0.2 release of this patch number is added.
    Compatible(u64),
    /// The host refuses it.
    Refused(Fault),
}

/// The text of the WASI version that the host implements.
pub const HOST_VERSION: &'static str = "@0.2.12";

/// What a host that offers `supported` makes of the import `name`, whose version denotes
/// `version`.
pub open spec fn versioned_import(
    name: Seq<char>,
    supported: Seq<Seq<char>>,
    version: Option<SemanticVersionView>,
) -> Import {
    if supported.contains(name) {
        Import::Offered
    } else {
        match cut_last(name, '@') {
            None => Import::Refused(Fault::Rejected(Rejection::ImportUnversioned)),
            Some((interface, _)) => match version {
                None => Import::Refused(Fault::World("An imported version is malformed."@)),
                Some(version) => if !"wasi:"@.is_prefix_of(interface) || version.major != 0 || version.minor != 2
                    || version.pre.len() != 0 || version.build.len() != 0 {
                    Import::Refused(Fault::Rejected(Rejection::ImportUnsupported))
                } else if !supported.contains(interface + HOST_VERSION@) {
                    Import::Refused(Fault::Rejected(Rejection::ImportInterface))
                } else {
                    Import::Compatible(version.patch)
                },
            },
        }
    }
}

/// What a host that offers `supported` makes of the import `name`.
pub open spec fn import_of(name: Seq<char>, supported: Seq<Seq<char>>) -> Import {
    versioned_import(
        name,
        supported,
        match cut_last(name, '@') {
            Some((_, version)) => semantic_version(version),
            None => None,
        },
    )
}

/// The first refusal of an import from `index` on.
pub open spec fn import_fault(imports: Seq<Seq<char>>, supported: Seq<Seq<char>>, index: int) -> Option<Fault>
    decreases imports.len() - index,
{
    if index < 0 || index >= imports.len() {
        None
    } else {
        match import_of(imports[index], supported) {
            Import::Refused(fault) => Some(fault),
            _ => import_fault(imports, supported, index + 1),
        }
    }
}

/// One of the imports before `end` needs the release of this patch number.
pub open spec fn needs(imports: Seq<Seq<char>>, supported: Seq<Seq<char>>, end: int, patch: u64) -> bool {
    exists|index: int|
        0 <= index < end && import_of(#[trigger] imports[index], supported) == Import::Compatible(patch)
}

/// The numbers grow.
pub open spec fn growing(numbers: Seq<u64>) -> bool {
    forall|i: int, j: int| 0 <= i < j < numbers.len() ==> numbers[i] < numbers[j]
}

fn insert_number(numbers: &mut Vec<u64>, number: u64)
    requires
        growing(old(numbers)@),
    ensures
        growing(final(numbers)@),
        forall|other: u64| #[trigger] final(numbers)@.contains(other) <==> old(numbers)@.contains(other) || other == number,
{
    let mut index: usize = 0;
    while index < numbers.len() && numbers[index] < number
        invariant
            index <= numbers.len(),
            growing(numbers@),
            *numbers == *old(numbers),
            forall|i: int| 0 <= i < index ==> numbers@[i] < number,
        decreases numbers.len() - index,
    {
        index += 1;
    }
    if index < numbers.len() && numbers[index] == number {
        assert(numbers@.contains(number));
        return ;
    }
    let ghost before = numbers@;
    numbers.insert(index, number);
    proof {
        let after = numbers@;
        assert(after == before.insert(index as int, number));
        assert forall|other: u64| #[trigger] after.contains(other) <==> before.contains(other) || other == number by {
            if before.contains(other) {
                let i = choose|i: int| 0 <= i < before.len() && before[i] == other;
                assert(after[if i < index { i } else { i + 1 }] == other);
            }
            if other == number {
                assert(after[index as int] == number);
            }
            if after.contains(other) && other != number {
                let i = choose|i: int| 0 <= i < after.len() && after[i] == other;
                assert(before[if i < index { i } else { i - 1 }] == other);
            }
        }
    }
}

/// Checks the import `name`, whose version denotes `version`, and returns the patch number
/// of the 0.2 release to add to what the host offers, where one is to be added.
pub fn match_import(name: &str, version: Option<SemanticVersion>, supported: &Vec<String>) -> (patch: Result<
    Option<u64>,
    ComponentError,
>)
    ensures
        match versioned_import(name@, texts(supported@), version_view(version)) {
            Import::Offered => patch == Ok::<_, ComponentError>(None::<u64>),
            Import::Compatible(expected) => patch == Ok::<_, ComponentError>(Some(expected)),
            Import::Refused(fault) => patch matches Err(error) && error@ == fault,
        },
{
    if holds_text(supported, name) {
        return Ok(None);
    }
    let (interface, _) = match cut_last_text(name, '@') {
        Some(parts) => parts,
        None => return Err(ComponentError::Rejected(Rejection::ImportUnversioned)),
    };
    let version = match version {
        Some(version) => version,
        None => return Err(ComponentError::World("An imported version is malformed.".to_owned())),
    };
    if strip_prefix(interface.as_str(), "wasi:").is_none() || version.major != 0 || version.minor != 2
        || !version.pre.as_str().is_empty() || !version.build.as_str().is_empty() {
        assert("wasi:"@.is_prefix_of(interface@) ==> !(version.major == 0 && version.minor == 2 && version.pre@.len()
            == 0 && version.build@.len() == 0));
        return Err(ComponentError::Rejected(Rejection::ImportUnsupported));
    }
    if !holds_text(supported, joined(interface.as_str(), HOST_VERSION).as_str()) {
        return Err(ComponentError::Rejected(Rejection::ImportInterface));
    }
    Ok(Some(version.patch))
}

/// Checks the imports of a component, and returns the patch numbers of the 0.2
/// releases to add to what the host offers, in order.
pub fn match_import_names(imports: &Vec<String>, supported: &Vec<String>) -> (patches: Result<Vec<u64>, ComponentError>)
    ensures
        match import_fault(texts(imports@), texts(supported@), 0) {
            Some(fault) => patches matches Err(error) && error@ == fault,
            None => {
                &&& patches matches Ok(patches)
                &&& growing(patches@)
                &&& forall|patch: u64| #[trigger]
                    patches@.contains(patch) <==> needs(
                        texts(imports@),
                        texts(supported@),
                        imports@.len() as int,
                        patch,
                    )
            },
        },
{
    let ghost names = texts(imports@);
    let ghost offered = texts(supported@);
    let mut patches: Vec<u64> = Vec::new();
    let mut index: usize = 0;
    while index < imports.len()
        invariant
            index <= imports.len(),
            names == texts(imports@),
            offered == texts(supported@),
            growing(patches@),
            forall|patch: u64| #[trigger] patches@.contains(patch) <==> needs(names, offered, index as int, patch),
            import_fault(names, offered, 0) == import_fault(names, offered, index as int),
        decreases imports.len() - index,
    {
        let name = imports[index].as_str();
        assert(names[index as int] == name@);
        let ghost before = patches@;
        let version = match cut_last_text(name, '@') {
            Some((_, version)) => parse_version(version.as_str()),
            None => None,
        };
        match match_import(name, version, supported) {
            Ok(Some(patch)) => {
                insert_number(&mut patches, patch);
                assert(import_of(names[index as int], offered) == Import::Compatible(patch));
            },
            Ok(None) => {},
            Err(error) => return Err(error),
        }
        proof {
            assert forall|patch: u64| #[trigger] patches@.contains(patch) <==> needs(names, offered, index + 1, patch) by {
                if needs(names, offered, index as int, patch) {
                    let i = choose|i: int|
                        0 <= i < index && import_of(#[trigger] names[i], offered) == Import::Compatible(patch);
                    assert(import_of(names[i], offered) == Import::Compatible(patch));
                }
                if needs(names, offered, index + 1, patch) && !needs(names, offered, index as int, patch) {
                    let i = choose|i: int|
                        0 <= i < index + 1 && import_of(#[trigger] names[i], offered) == Import::Compatible(patch);
                    assert(i == index);
                }
            }
        }
        index += 1;
    }
    Ok(patches)
}

/// A line of a WIT document that says what the document means: no release
/// annotation.
pub open spec fn keeps_line(line: Seq<char>) -> bool {
    !"@since("@.is_prefix_of(trimmed_start(line)) && !"@deprecated("@.is_prefix_of(trimmed_start(line))
}

/// The text of a WIT document under another release: without release annotations,
/// each mention of the host's version replaced.
pub open spec fn compatible_text(source: Seq<char>, version: Seq<char>) -> Seq<char> {
    replaced(
        joined_by(lines_of(source).filter(|line: Seq<char>| keeps_line(line)), "\n"@),
        HOST_VERSION@,
        "@"@ + version,
    )
}

/// Writes a WIT document under another release.
///
/// Release annotations are publication metadata, no part of the types; feature gates
/// stay.
pub fn compatible_wasi_source(source: &str, version: &str) -> (text: String)
    ensures
        text@ == compatible_text(source@, version@),
{
    let lines = split_lines(source);
    let ghost shown = lines@.map_values(|line: String| line@);
    let ghost keeps = |line: Seq<char>| keeps_line(line);
    let mut kept: Vec<String> = Vec::new();
    let mut index: usize = 0;
    proof {
        reveal(Seq::filter);
        assert(kept@.map_values(|line: String| line@) =~= shown.take(0).filter(keeps));
    }
    while index < lines.len()
        invariant
            index <= lines.len(),
            shown == lines@.map_values(|line: String| line@),
            keeps == (|line: Seq<char>| keeps_line(line)),
            kept@.map_values(|line: String| line@) == shown.take(index as int).filter(keeps),
        decreases lines.len() - index,
    {
        let line = lines[index].as_str();
        let ghost before = kept@;
        assert(shown[index as int] == line@);
        proof {
            reveal(Seq::filter);
            assert(shown.take(index + 1).drop_last() =~= shown.take(index as int));
            assert(shown.take(index + 1).last() == line@);
        }
        if !starts_behind_space(line, "@since(") && !starts_behind_space(line, "@deprecated(") {
            kept.push(line.to_owned());
            assert(kept@.map_values(|line: String| line@) =~= before.map_values(|line: String| line@).push(line@));
        }
        index += 1;
    }
    assert(shown.take(shown.len() as int) =~= shown);
    let text = join_texts(&kept, "\n");
    replace_text(text.as_str(), HOST_VERSION, joined("@", version).as_str())
}

/// The file name of the package that only extensions import.
pub const API_PACKAGE: &'static str = "sloper-api.wit";

/// The 0.2 release of a patch number.
pub open spec fn release_text(patch: u64) -> Seq<char> {
    "0.2."@ + decimal(patch as nat)
}

/// The WIT document that gathers what the host offers of a release.
pub open spec fn admission_text(version: Seq<char>) -> Seq<char> {
    "package sloper:admission@"@ + version + "; world host { include wasi:cli/imports@"@ + version
        + "; import wasi:http/types@"@ + version + "; import wasi:http/outgoing-handler@"@ + version + "; }"@
}

fn write_admission(version: &str) -> (text: String)
    ensures
        text@ == admission_text(version@),
{
    let mut text = "package sloper:admission@".to_owned();
    push_text(&mut text, version);
    push_text(&mut text, "; world host { include wasi:cli/imports@");
    push_text(&mut text, version);
    push_text(&mut text, "; import wasi:http/types@");
    push_text(&mut text, version);
    push_text(&mut text, "; import wasi:http/outgoing-handler@");
    push_text(&mut text, version);
    push_text(&mut text, "; }");
    text
}

/// The host's packages before `end` under another release.
pub open spec fn compatible_packages(
    packages: Seq<(Seq<char>, Seq<char>)>,
    version: Seq<char>,
    end: int,
) -> Seq<(Seq<char>, Seq<char>)>
    decreases end,
{
    if end <= 0 {
        Seq::empty()
    } else {
        let earlier = compatible_packages(packages, version, end - 1);
        let (name, source) = packages[end - 1];
        if name == API_PACKAGE@ {
            earlier
        } else {
            earlier.push((name, compatible_text(source, version)))
        }
    }
}

/// The group that offers the host's packages under another release.
pub open spec fn release_group(packages: Seq<(Seq<char>, Seq<char>)>, patch: u64) -> GroupView {
    GroupView {
        main: ("admission.wit"@, admission_text(release_text(patch))),
        documents: compatible_packages(packages, release_text(patch), packages.len() as int),
    }
}

/// Writes the documents that offer the host's packages under another release: the one that
/// imports them, and the packages.
pub fn write_release(packages: &Vec<Document>, patch: u64) -> (written: (Document, Vec<Document>))
    ensures
        release_group(pairs_of(packages@), patch) == (GroupView {
            main: (written.0.0@, written.0.1@),
            documents: pairs_of(written.1@),
        }),
{
    let ghost shown = pairs_of(packages@);
    let version = joined("0.2.", write_decimal(patch).as_str());
    let mut documents: Vec<Document> = Vec::new();
    let mut index: usize = 0;
    assert(pairs_of(documents@) =~= Seq::empty());
    while index < packages.len()
        invariant
            index <= packages.len(),
            shown == pairs_of(packages@),
            version@ == release_text(patch),
            pairs_of(documents@) == compatible_packages(shown, version@, index as int),
        decreases packages.len() - index,
    {
        let (name, source) = (&packages[index].0, &packages[index].1);
        let ghost earlier = documents@;
        assert(shown[index as int] == (name@, source@));
        if !same_text(name.as_str(), API_PACKAGE) {
            documents.push((name.clone(), compatible_wasi_source(source.as_str(), version.as_str())));
            assert(pairs_of(documents@) =~= pairs_of(earlier).push((name@, compatible_text(source@, version@))));
        }
        index += 1;
    }
    (("admission.wit".to_owned(), write_admission(version.as_str())), documents)
}

/// All of the first `end` documents are WIT.
pub open spec fn documents_parse(documents: Seq<(Seq<char>, Seq<char>)>, end: int) -> bool {
    forall|index: int| 0 <= index < end ==> document_parses((#[trigger] documents[index]).0, documents[index].1)
}

/// A group can be added to a resolver to which this was done: its documents fit, are WIT, add
/// new packages, and resolve.
pub open spec fn admits_group(before: ResolverView, group: GroupView) -> bool {
    &&& total_room(before.groups) + group_room(group) < u32::MAX
    &&& documents_parse(group.documents, group.documents.len() as int)
    &&& document_parses(group.main.0, group.main.1)
    &&& fits_chain(before.groups, group)
    &&& group_resolves(before, group)
}

fn measure(documents: &Vec<Document>, main: &Document, used: usize) -> (room: Option<usize>)
    requires
        used < u32::MAX,
    ensures
        ({
            let needed = used + group_room(
                GroupView { main: (main.0@, main.1@), documents: pairs_of(documents@) },
            );
            match room {
                Some(room) => room == needed && needed < u32::MAX,
                None => needed >= u32::MAX,
            }
        }),
{
    let ghost shown = pairs_of(documents@);
    let mut room: usize = used;
    let mut index: usize = 0;
    while index < documents.len()
        invariant
            index <= documents@.len(),
            shown == pairs_of(documents@),
            used <= room < u32::MAX,
            room == used + room_before(shown, index as nat),
        decreases documents@.len() - index,
    {
        let length = byte_len(documents[index].1.as_str());
        assert(shown[index as int] == (documents@[index as int].0@, documents@[index as int].1@));
        if length >= 0xffff_fffe - room {
            proof {
                lemma_room_grows(shown, index as nat + 1, shown.len());
            }
            return None;
        }
        room = room + length + 1;
        index += 1;
    }
    let length = byte_len(main.1.as_str());
    if length >= 0xffff_fffe - room {
        return None;
    }
    Some(room + length + 1)
}

proof fn lemma_room_grows(documents: Seq<(Seq<char>, Seq<char>)>, end: nat, later: nat)
    requires
        end <= later,
    ensures
        room_before(documents, end) <= room_before(documents, later),
    decreases later - end,
{
    if end < later {
        lemma_room_grows(documents, end, (later - 1) as nat);
    }
}

fn has_name(packages: &Vec<PackageSummary>, name: &str) -> (found: bool)
    ensures
        found == has_package(package_views(packages@), name@),
{
    let ghost shown = package_views(packages@);
    let mut index: usize = 0;
    while index < packages.len()
        invariant
            index <= packages@.len(),
            shown == package_views(packages@),
            forall|i: int| 0 <= i < index ==> (#[trigger] shown[i]).name != name@,
        decreases packages@.len() - index,
    {
        assert(shown[index as int] == packages@[index as int]@);
        if same_text(packages[index].name.as_str(), name) {
            return true;
        }
        index += 1;
    }
    false
}

fn only_new(packages: &Vec<PackageSummary>, others: &Vec<PackageSummary>) -> (only: bool)
    ensures
        only == are_new(package_views(packages@), package_views(others@)),
{
    let ghost shown = package_views(packages@);
    let mut index: usize = 0;
    while index < packages.len()
        invariant
            index <= packages@.len(),
            shown == package_views(packages@),
            forall|i: int|
                0 <= i < index ==> !has_package(package_views(others@), (#[trigger] shown[i]).name),
        decreases packages@.len() - index,
    {
        assert(shown[index as int] == packages@[index as int]@);
        if has_name(others, packages[index].name.as_str()) {
            return false;
        }
        index += 1;
    }
    true
}

fn only_among(packages: &Vec<PackageSummary>) -> (only: bool)
    ensures
        only == are_closed(package_views(packages@)),
{
    let ghost shown = package_views(packages@);
    let mut index: usize = 0;
    while index < packages.len()
        invariant
            index <= packages@.len(),
            shown == package_views(packages@),
            forall|i: int, j: int|
                0 <= i < index && 0 <= j < shown[i].foreign.len() ==> has_package(
                    shown,
                    #[trigger] shown[i].foreign[j],
                ),
        decreases packages@.len() - index,
    {
        let package = &packages[index];
        assert(shown[index as int] == package@);
        let mut place: usize = 0;
        while place < package.foreign.len()
            invariant
                place <= package.foreign@.len(),
                index < packages@.len(),
                *package == packages@[index as int],
                shown == package_views(packages@),
                shown[index as int] == package@,
                forall|j: int| 0 <= j < place ==> has_package(shown, #[trigger] shown[index as int].foreign[j]),
            decreases package.foreign@.len() - place,
        {
            assert(shown[index as int].foreign[place as int] == package.foreign@[place as int]@);
            if !has_name(packages, package.foreign[place].as_str()) {
                return false;
            }
            place += 1;
        }
        index += 1;
    }
    true
}

proof fn lemma_sizes_grow(packages: Seq<PackageView>, end: nat, later: nat)
    requires
        end <= later,
    ensures
        sizes_before(packages, end) <= sizes_before(packages, later),
    decreases later - end,
{
    if end < later {
        lemma_sizes_grow(packages, end, (later - 1) as nat);
    }
}

fn chain(packages: &Vec<PackageSummary>, before: usize) -> (chain: Option<usize>)
    requires
        before <= MAX_CHAIN,
    ensures
        match chain {
            Some(chain) => chain == chain_of(package_views(packages@), before as nat) && chain <= MAX_CHAIN,
            None => chain_of(package_views(packages@), before as nat) > MAX_CHAIN,
        },
{
    let ghost shown = package_views(packages@);
    let mut size: usize = 0;
    let mut index: usize = 0;
    while index < packages.len()
        invariant
            index <= packages@.len(),
            shown == package_views(packages@),
            size <= MAX_CHAIN,
            size == sizes_before(shown, index as nat),
        decreases packages@.len() - index,
    {
        let package = &packages[index];
        proof {
            assert(shown[index as int] == package@);
            lemma_sizes_grow(shown, index as nat + 1, shown.len());
        }
        if package.types > MAX_CHAIN || package.interfaces > MAX_CHAIN || package.worlds > MAX_CHAIN {
            return None;
        }
        size = size + package.types + package.interfaces + package.worlds + 1;
        if size > MAX_CHAIN {
            return None;
        }
        index += 1;
    }
    let chain: usize = if only_among(packages) {
        size
    } else {
        size + before
    };
    if chain <= MAX_CHAIN {
        Some(chain)
    } else {
        None
    }
}

/// What is known of the groups that were added to a resolver.
struct Added {
    /// How much room they take.
    room: usize,
    /// Their packages.
    packages: Vec<PackageSummary>,
    /// How many items can refer to one another in a row.
    chain: usize,
}

impl Added {
    spec fn describes(&self, groups: Seq<GroupView>) -> bool {
        &&& self.room == total_room(groups)
        &&& self.room < u32::MAX
        &&& package_views(self.packages@) == packages_until(groups, groups.len())
        &&& self.chain == chain_until(groups, groups.len())
        &&& self.chain <= MAX_CHAIN
    }
}

proof fn lemma_views_appended(first: Seq<PackageSummary>, second: Seq<PackageSummary>)
    ensures
        package_views(first + second) == package_views(first) + package_views(second),
{
    assert(package_views(first + second) =~= package_views(first) + package_views(second));
}

/// Adds a group to a resolver whose groups are described, and describes the new one too.
fn add_group(resolver: &mut Resolver, main: &Document, documents: &Vec<Document>, added: &mut Added) -> (admitted: bool)
    requires
        old(added).describes(resolved(*old(resolver)).groups),
    ensures
        ({
            let group = GroupView { main: (main.0@, main.1@), documents: pairs_of(documents@) };
            if admitted {
                &&& admits_group(resolved(*old(resolver)), group)
                &&& resolved(*final(resolver)) == with_group(resolved(*old(resolver)), group)
                &&& final(added).describes(resolved(*final(resolver)).groups)
            } else {
                !admits_group(resolved(*old(resolver)), group)
            }
        }),
{
    let ghost before = resolved(*resolver);
    let ghost group = GroupView { main: (main.0@, main.1@), documents: pairs_of(documents@) };
    let room = match measure(documents, main, added.room) {
        Some(room) => room,
        None => return false,
    };
    let mut parsed: Vec<wit_parser::UnresolvedPackageGroup> = Vec::new();
    let mut packages: Vec<PackageSummary> = Vec::new();
    let mut index: usize = 0;
    assert(package_views(packages@) =~= Seq::empty());
    while index < documents.len()
        invariant
            index <= documents@.len(),
            group == (GroupView { main: (main.0@, main.1@), documents: pairs_of(documents@) }),
            group_room(group) < u32::MAX,
            documents_parse(group.documents, index as int),
            parsed@.len() == index,
            forall|i: int| 0 <= i < index ==> document_of(#[trigger] parsed@[i]) == group.documents[i],
            package_views(packages@) == packages_before(group.documents, index as nat),
        decreases documents@.len() - index,
    {
        proof {
            assert(group.documents[index as int] == (documents@[index as int].0@, documents@[index as int].1@));
            lemma_room_grows(group.documents, index as nat + 1, group.documents.len());
        }
        match parse_document(documents[index].0.as_str(), documents[index].1.as_str()) {
            Some(document) => {
                let mut found = read_packages(&document);
                proof {
                    lemma_views_appended(packages@, found@);
                }
                packages.append(&mut found);
                parsed.push(document);
            },
            None => {
                assert(!document_parses(group.documents[index as int].0, group.documents[index as int].1));
                return false;
            },
        }
        index += 1;
    }
    let first = match parse_document(main.0.as_str(), main.1.as_str()) {
        Some(first) => first,
        None => return false,
    };
    let mut found = read_packages(&first);
    proof {
        lemma_views_appended(packages@, found@);
    }
    packages.append(&mut found);
    assert(package_views(packages@) == group_packages(group));
    if !only_new(&packages, &added.packages) {
        return false;
    }
    let chain = match chain(&packages, added.chain) {
        Some(chain) => chain,
        None => return false,
    };
    proof {
        assert(documents_of(parsed@) =~= group.documents);
        let groups = before.groups.push(group);
        lemma_groups_kept(before.groups, group, before.groups.len());
        assert(groups[groups.len() - 1] == group);
        lemma_views_appended(added.packages@, packages@);
    }
    if push_group(resolver, first, parsed) {
        added.room = room;
        added.packages.append(&mut packages);
        if added.chain < chain {
            added.chain = chain;
        }
        true
    } else {
        false
    }
}

proof fn lemma_groups_kept(groups: Seq<GroupView>, group: GroupView, end: nat)
    requires
        end <= groups.len(),
    ensures
        rooms_before(groups.push(group), end) == rooms_before(groups, end),
        packages_until(groups.push(group), end) == packages_until(groups, end),
        chain_until(groups.push(group), end) == chain_until(groups, end),
    decreases end,
{
    if end > 0 {
        lemma_groups_kept(groups, group, (end - 1) as nat);
    }
}

/// The group of the extension world.
pub open spec fn host_group(packages: Seq<(Seq<char>, Seq<char>)>, source: Seq<char>) -> GroupView {
    GroupView { main: ("extension.wit"@, source), documents: packages }
}

/// What resolves the extension world, where it resolves.
pub open spec fn host_view(packages: Seq<(Seq<char>, Seq<char>)>, source: Seq<char>) -> Option<ResolverView> {
    let added = with_group(nothing_resolved(), host_group(packages, source));
    if admits_group(nothing_resolved(), host_group(packages, source)) && world_exists(added, "extension"@) {
        Some(with_world(added, "extension"@))
    } else {
        None
    }
}

fn resolve_host(host: &HostWorld) -> (found: Option<(Resolver, Added)>)
    ensures
        match found {
            Some((resolver, added)) => host_view(pairs_of(host.packages@), host.source@) == Some(resolved(resolver))
                && added.describes(resolved(resolver).groups),
            None => host_view(pairs_of(host.packages@), host.source@) is None,
        },
{
    let mut resolver = new_resolver();
    let main = ("extension.wit".to_owned(), host.source.clone());
    let mut added = Added { room: 0, packages: Vec::new(), chain: 0 };
    assert(package_views(added.packages@) =~= Seq::empty());
    if add_group(&mut resolver, &main, &host.packages, &mut added) && select_world(&mut resolver, "extension") {
        Some((resolver, added))
    } else {
        None
    }
}

/// What was done after another release was added to the extension world, where it resolves.
pub open spec fn release_view(before: ResolverView, packages: Seq<(Seq<char>, Seq<char>)>, patch: u64) -> Option<
    ResolverView,
> {
    let added = with_group(before, release_group(packages, patch));
    if admits_group(before, release_group(packages, patch)) && world_exists(added, "host"@) {
        Some(with_imports(with_world(added, "host"@)))
    } else {
        None
    }
}

/// What was done after the releases from `index` on were added to the extension world, where
/// they resolve.
pub open spec fn releases_view(
    before: ResolverView,
    packages: Seq<(Seq<char>, Seq<char>)>,
    patches: Seq<u64>,
    index: int,
) -> Option<ResolverView>
    decreases patches.len() - index,
{
    if index < 0 || index >= patches.len() {
        Some(before)
    } else {
        match release_view(before, packages, patches[index]) {
            Some(after) => releases_view(after, packages, patches, index + 1),
            None => None,
        }
    }
}

fn add_release(resolver: &mut Resolver, packages: &Vec<Document>, patch: u64, added: &mut Added) -> (admitted: bool)
    requires
        old(added).describes(resolved(*old(resolver)).groups),
    ensures
        if admitted {
            &&& release_view(resolved(*old(resolver)), pairs_of(packages@), patch) == Some(resolved(*final(resolver)))
            &&& final(added).describes(resolved(*final(resolver)).groups)
            &&& resolved(*final(resolver)).worlds.len() > 0
        } else {
            release_view(resolved(*old(resolver)), pairs_of(packages@), patch) is None
        },
{
    let (main, documents) = write_release(packages, patch);
    if add_group(resolver, &main, &documents, added) && select_world(resolver, "host") {
        add_imports(resolver);
        true
    } else {
        false
    }
}

/// What is wrong with the world of a component, `world`, before its types are
/// compared; otherwise nothing.
pub open spec fn names_fault(world: WorldView, exports: Seq<Seq<char>>, imports: Seq<Seq<char>>) -> Option<Fault> {
    match export_fault(world.exports, exports) {
        Some(rejection) => Some(Fault::Rejected(rejection)),
        None => import_fault(world.imports, imports, 0),
    }
}

/// The numbers that a world needs, in order: the patch numbers of the 0.2 releases to
/// add to what the host offers.
pub open spec fn needed(imports: Seq<Seq<char>>, supported: Seq<Seq<char>>, patches: Seq<u64>) -> bool {
    growing(patches) && forall|patch: u64| #[trigger]
        patches.contains(patch) <==> needs(imports, supported, imports.len() as int, patch)
}

/// There is one list of numbers that a world needs.
proof fn lemma_needed_once(imports: Seq<Seq<char>>, supported: Seq<Seq<char>>, first: Seq<u64>, second: Seq<u64>)
    requires
        needed(imports, supported, first),
        needed(imports, supported, second),
    ensures
        first == second,
{
    lemma_growing_once(first, second);
}

proof fn lemma_growing_once(first: Seq<u64>, second: Seq<u64>)
    requires
        growing(first),
        growing(second),
        forall|number: u64| #[trigger] first.contains(number) <==> second.contains(number),
    ensures
        first == second,
    decreases first.len(),
{
    if first.len() == 0 {
        if second.len() > 0 {
            assert(second.contains(second[0]));
            assert(first.contains(second[0]));
        }
    } else if second.len() == 0 {
        assert(first.contains(first[0]));
        assert(second.contains(first[0]));
    } else {
        let one = first.last();
        let other = second.last();
        assert(first[first.len() - 1] == one && second[second.len() - 1] == other);
        assert(first.contains(one) && second.contains(other));
        assert(second.contains(one) && first.contains(other));
        let i = choose|i: int| 0 <= i < second.len() && second[i] == one;
        let j = choose|j: int| 0 <= j < first.len() && first[j] == other;
        assert(one == other);
        assert forall|number: u64| #[trigger] first.drop_last().contains(number) <==> second.drop_last().contains(
            number,
        ) by {
            if first.drop_last().contains(number) {
                let k = choose|k: int| 0 <= k < first.drop_last().len() && first.drop_last()[k] == number;
                assert(first[k] == number);
                assert(first.contains(number));
                assert(second.contains(number));
                let m = choose|m: int| 0 <= m < second.len() && second[m] == number;
                assert(m != second.len() - 1);
                assert(second.drop_last()[m] == number);
            }
            if second.drop_last().contains(number) {
                let k = choose|k: int| 0 <= k < second.drop_last().len() && second.drop_last()[k] == number;
                assert(second[k] == number);
                assert(second.contains(number));
                assert(first.contains(number));
                let m = choose|m: int| 0 <= m < first.len() && first[m] == number;
                assert(m != first.len() - 1);
                assert(first.drop_last()[m] == number);
            }
        }
        lemma_growing_once(first.drop_last(), second.drop_last());
        assert(first =~= first.drop_last().push(one));
        assert(second =~= second.drop_last().push(other));
    }
}

/// The patch numbers of the 0.2 releases to add to what the host offers, for bytes that
/// decode to `decoded` and an extension world of the exports and imports `resolved`, or
/// what is wrong with the component.
pub open spec fn judged(decoded: Option<WorldView>, resolved: Option<(Seq<Seq<char>>, Seq<Seq<char>>)>) -> Result<
    Seq<u64>,
    Fault,
> {
    match decoded {
        None => Err(Fault::World("The component could not be decoded."@)),
        Some(world) => match resolved {
            None => Err(Fault::World("The extension world could not be resolved."@)),
            Some((exports, imports)) => match names_fault(world, exports, imports) {
                Some(fault) => Err(fault),
                None => Ok(choose|patches: Seq<u64>| needed(world.imports, imports, patches)),
            },
        },
    }
}

/// Judges a component that decodes to `decoded` by the exports and imports of the extension
/// world, `resolved`, before types are compared. Returns the patch numbers of the 0.2
/// releases to add to what the host offers.
pub fn judge_world(decoded: Option<ComponentWorld>, resolved: Option<(Vec<String>, Vec<String>)>) -> (patches: Result<
    Vec<u64>,
    ComponentError,
>)
    ensures
        match judged(
            match decoded {
                Some(decoded) => Some(decoded@),
                None => None,
            },
            match resolved {
                Some((exports, imports)) => Some((texts(exports@), texts(imports@))),
                None => None,
            },
        ) {
            Ok(expected) => patches matches Ok(patches) && patches@ == expected,
            Err(fault) => patches matches Err(error) && error@ == fault,
        },
{
    let world = match decoded {
        None => return Err(ComponentError::World("The component could not be decoded.".to_owned())),
        Some(world) => world,
    };
    let (exports, imports) = match resolved {
        None => return Err(ComponentError::World("The extension world could not be resolved.".to_owned())),
        Some(names) => names,
    };
    match validate_exports(&world.exports, &exports) {
        Ok(_) => {},
        Err(error) => return Err(error),
    }
    let patches = match match_import_names(&world.imports, &imports) {
        Ok(patches) => patches,
        Err(error) => return Err(error),
    };
    proof {
        assert(needed(texts(world.imports@), texts(imports@), patches@));
        let chosen = choose|chosen: Seq<u64>| needed(texts(world.imports@), texts(imports@), chosen);
        lemma_needed_once(texts(world.imports@), texts(imports@), chosen, patches@);
    }
    Ok(patches)
}

/// What is wrong with a component on which comparing types came to `accepted`, if anything.
pub open spec fn types_fault(accepted: Option<bool>) -> Option<Fault> {
    match accepted {
        None => Some(Fault::World("A compatible release could not be resolved."@)),
        Some(false) => Some(Fault::World("The component does not conform to the extension world."@)),
        Some(true) => None,
    }
}

/// Reports on a component on which comparing types came to `accepted`.
pub fn judge_types(accepted: Option<bool>) -> (valid: Result<(), ComponentError>)
    ensures
        match types_fault(accepted) {
            Some(fault) => valid matches Err(error) && error@ == fault,
            None => valid == Ok::<(), ComponentError>(()),
        },
{
    match accepted {
        None => Err(ComponentError::World("A compatible release could not be resolved.".to_owned())),
        Some(accepted) => {
            if accepted {
                Ok(())
            } else {
                Err(ComponentError::World("The component does not conform to the extension world.".to_owned()))
            }
        },
    }
}

/// What is wrong with the world of a component, if anything: it has to be a component whose
/// world can be decoded, to export the action interface alone, to import only what the host
/// offers, and to conform to the extension world.
pub open spec fn world_fault(component: Seq<u8>, packages: Seq<(Seq<char>, Seq<char>)>, source: Seq<char>) -> Option<Fault> {
    if is_package(component) {
        Some(Fault::Rejected(Rejection::WitPackage))
    } else if !decodes(component) {
        Some(Fault::World("The component could not be decoded."@))
    } else {
        match judged(
            decoded_component(component),
            match host_view(packages, source) {
                Some(host) => Some(world_keys(host, 0)),
                None => None,
            },
        ) {
            Err(fault) => Some(fault),
            Ok(patches) => types_fault(
                match releases_view(host_view(packages, source)->0, packages, patches, 0) {
                    Some(whole) => Some(world_targets(whole, 0, component)),
                    None => None,
                },
            ),
        }
    }
}

/// Compares a component with the extension world once the releases are added to it that it
/// needs; `None` where one of them does not resolve.
fn compare_types(
    resolver: Resolver,
    packages: &Vec<Document>,
    patches: &Vec<u64>,
    added: Added,
    component: &[u8],
) -> (accepted: Option<bool>)
    requires
        resolved(resolver).worlds.len() > 0,
        added.describes(resolved(resolver).groups),
    ensures
        accepted == match releases_view(resolved(resolver), pairs_of(packages@), patches@, 0) {
            Some(whole) => Some(world_targets(whole, 0, component@)),
            None => None,
        },
{
    let ghost outcome = releases_view(resolved(resolver), pairs_of(packages@), patches@, 0);
    let mut whole = resolver;
    let mut described = added;
    let mut index: usize = 0;
    while index < patches.len()
        invariant
            index <= patches@.len(),
            resolved(whole).worlds.len() > 0,
            described.describes(resolved(whole).groups),
            outcome == releases_view(resolved(resolver), pairs_of(packages@), patches@, 0),
            outcome == releases_view(resolved(whole), pairs_of(packages@), patches@, index as int),
        decreases patches@.len() - index,
    {
        if !add_release(&mut whole, packages, patches[index], &mut described) {
            return None;
        }
        index += 1;
    }
    Some(check_target(&whole, 0, component))
}

/// Checks that a component implements the extension world, without running it.
pub fn validate_world(component: &[u8], host: &HostWorld) -> (valid: Result<(), ComponentError>)
    ensures
        match world_fault(component@, pairs_of(host.packages@), host.source@) {
            Some(fault) => valid matches Err(error) && error@ == fault,
            None => valid == Ok::<(), ComponentError>(()),
        },
{
    match shape(component) {
        Some(Shape::Empty) | Some(Shape::Mixed) => {},
        Some(Shape::Package) => return Err(ComponentError::Rejected(Rejection::WitPackage)),
        None => return Err(ComponentError::World("The component could not be decoded.".to_owned())),
    }
    let decoded = decode_component(component);
    match resolve_host(host) {
        Some((resolver, added)) => {
            let keys = read_keys(&resolver, 0);
            match judge_world(decoded, Some(keys)) {
                Ok(patches) => judge_types(compare_types(resolver, &host.packages, &patches, added, component)),
                Err(error) => Err(error),
            }
        },
        None => match judge_world(decoded, None) {
            Ok(_) => vstd::pervasive::unreached(),
            Err(error) => Err(error),
        },
    }
}

/// What is wrong with a component, if anything: it has to embed a manifest that its parser
/// accepts, and to implement the extension world. `manifest` is what the parser says of the
/// embedded document: nothing, or the findings that refuse it.
pub open spec fn component_fault(
    component: Seq<u8>,
    manifest: Result<(), Seq<FindingView>>,
    packages: Seq<(Seq<char>, Seq<char>)>,
    source: Seq<char>,
) -> Option<Fault> {
    match manifest_of(component) {
        Err(rejection) => Some(Fault::Rejected(rejection)),
        Ok(_) => match manifest {
            Err(findings) => Some(Fault::Manifest(findings)),
            Ok(_) => world_fault(component, packages, source),
        },
    }
}

/// What a manifest parser says, without the manifest.
pub open spec fn verdict_of(verdict: Result<Json, Vec<Finding>>) -> Result<(), Seq<FindingView>> {
    match verdict {
        Ok(_) => Ok(()),
        Err(findings) => Err(finding_views(findings@)),
    }
}

/// The parser says so of the manifest that a component embeds, where it embeds one.
pub open spec fn manifest_parses<P: Fn(&[u8]) -> Result<Json, Vec<Finding>>>(
    component: Seq<u8>,
    parse: P,
    verdict: Result<Json, Vec<Finding>>,
) -> bool {
    manifest_of(component) matches Ok(manifest) ==> exists|bytes: &[u8]|
        bytes@ == manifest && #[trigger] call_ensures(parse, (bytes,), verdict)
}

/// The outcome of a check on a component whose manifest parses to `verdict`: the fault, or
/// the manifest.
pub open spec fn is_validated(
    component: Seq<u8>,
    verdict: Result<Json, Vec<Finding>>,
    packages: Seq<(Seq<char>, Seq<char>)>,
    source: Seq<char>,
    validated: Result<Json, ComponentError>,
) -> bool {
    match component_fault(component, verdict_of(verdict), packages, source) {
        Some(fault) => validated matches Err(error) && error@ == fault,
        None => validated == Ok::<_, ComponentError>(verdict->Ok_0),
    }
}

/// Checks a component, and returns the manifest that it embeds. `parse` is the manifest
/// parser.
pub fn validate_extension<P: Fn(&[u8]) -> Result<Json, Vec<Finding>>>(
    component: &[u8],
    parse: &P,
    host: &HostWorld,
) -> (validated: Result<Json, ComponentError>)
    requires
        forall|bytes: &[u8]| call_requires(*parse, (bytes,)),
    ensures
        exists|verdict: Result<Json, Vec<Finding>>| #[trigger]
            manifest_parses(component@, *parse, verdict) && is_validated(
                component@,
                verdict,
                pairs_of(host.packages@),
                host.source@,
                validated,
            ),
{
    let bytes = match extract_manifest(component) {
        Ok(bytes) => bytes,
        Err(error) => {
            assert(manifest_parses(component@, *parse, Ok(Json::Null)));
            return Err(error);
        },
    };
    let verdict = parse(bytes);
    assert(manifest_parses(component@, *parse, verdict));
    match verdict {
        Ok(manifest) => match validate_world(component, host) {
            Ok(_) => Ok(manifest),
            Err(error) => Err(error),
        },
        Err(findings) => Err(ComponentError::Manifest(findings)),
    }
}

/// Checks a component's embedded document and its complete world.
///
/// `manifest` is what the manifest parser says of the embedded document: nothing, or
/// the findings that refuse it.
pub fn validate_component(component: &[u8], manifest: Result<(), Vec<Finding>>, host: &HostWorld) -> (valid: Result<
    (),
    ComponentError,
>)
    ensures
        match manifest_of(component@) {
            Err(rejection) => valid == Err::<(), _>(ComponentError::Rejected(rejection)),
            Ok(_) => match manifest {
                Err(findings) => valid == Err::<(), _>(ComponentError::Manifest(findings)),
                Ok(_) => match world_fault(component@, pairs_of(host.packages@), host.source@) {
                    Some(fault) => valid matches Err(error) && error@ == fault,
                    None => valid == Ok::<(), ComponentError>(()),
                },
            },
        },
{
    match extract_manifest(component) {
        Ok(_) => {},
        Err(error) => return Err(error),
    }
    match manifest {
        Ok(_) => {},
        Err(findings) => return Err(ComponentError::Manifest(findings)),
    }
    validate_world(component, host)
}

/// The export is an interface with the function `run` alone.
pub open spec fn runs(export: ExportView) -> bool {
    &&& export.functions is Some
    &&& export.functions->0.len() == 1
    &&& export.functions->0[0] == seq!['r', 'u', 'n']
}

proof fn lemma_exports(exports: Seq<ExportView>, index: int)
    requires
        0 <= index,
    ensures
        exports_fault(exports, index) is None <==> forall|i: int|
            index <= i < exports.len() ==> runs(#[trigger] exports[i]),
    decreases exports.len() - index,
{
    reveal_strlit("run");
    assert("run"@ =~= seq!['r', 'u', 'n']);
    if index < exports.len() {
        lemma_exports(exports, index + 1);
    }
}

/// A component is accepted for its exports exactly where it exports every interface that is
/// expected and no other, each with the function `run` alone.
pub proof fn law_exports_match(exports: Seq<ExportView>, expected: Seq<Seq<char>>)
    ensures
        export_fault(exports, expected) is None <==> {
            &&& forall|i: int| 0 <= i < exports.len() ==> expected.contains((#[trigger] exports[i]).name)
            &&& forall|i: int| 0 <= i < expected.len() ==> exports_name(exports, #[trigger] expected[i])
            &&& forall|i: int| 0 <= i < exports.len() ==> runs(#[trigger] exports[i])
        },
{
    lemma_exports(exports, 0);
}

/// An import is accepted under its own name, or as an interface of WASI in a plain release
/// of 0.2 where the host offers that interface in its own release.
pub proof fn law_imports_match(name: Seq<char>, supported: Seq<Seq<char>>, interface: Seq<char>, version: Seq<char>)
    requires
        name == interface + seq!['@'] + version,
        !version.contains('@'),
    ensures
        ({
            let denoted = semantic_version(version);
            let fits = {
                &&& seq!['w', 'a', 's', 'i', ':'].is_prefix_of(interface)
                &&& denoted is Some
                &&& denoted->0.major == 0 && denoted->0.minor == 2
                &&& denoted->0.pre.len() == 0 && denoted->0.build.len() == 0
                &&& supported.contains(interface + seq!['@', '0', '.', '2', '.', '1', '2'])
            };
            &&& supported.contains(name) ==> import_of(name, supported) == Import::Offered
            &&& !supported.contains(name) && fits ==> import_of(name, supported) == Import::Compatible(denoted->0.patch)
            &&& !supported.contains(name) && !fits ==> import_of(name, supported) is Refused
        }),
{
    reveal_strlit("wasi:");
    reveal_strlit("@0.2.12");
    assert("wasi:"@ =~= seq!['w', 'a', 's', 'i', ':']);
    assert(HOST_VERSION@ =~= seq!['@', '0', '.', '2', '.', '1', '2']);
    law_cut_at_the_last(name, '@');
    assert(name[interface.len() as int] == '@');
    assert(name.contains('@'));
    let (before, behind) = cut_last(name, '@')->0;
    if before.len() < interface.len() {
        let at = interface.len() - before.len() - 1;
        assert(behind[at] == name[interface.len() as int]);
        assert(behind.contains('@'));
    }
    if before.len() > interface.len() {
        let at = before.len() - interface.len() - 1;
        assert(name[before.len() as int] == '@');
        assert(version[at] == name[before.len() as int]);
        assert(version.contains('@'));
    }
    assert(before =~= name.take(interface.len() as int));
    assert(interface =~= name.take(interface.len() as int));
    assert(behind =~= name.skip(interface.len() as int + 1));
    assert(version =~= name.skip(interface.len() as int + 1));
}

/// An import without a version is accepted only under its own name.
pub proof fn law_unversioned_imports(name: Seq<char>, supported: Seq<Seq<char>>)
    requires
        !name.contains('@'),
    ensures
        supported.contains(name) ==> import_of(name, supported) == Import::Offered,
        !supported.contains(name) ==> import_of(name, supported) == Import::Refused(
            Fault::Rejected(Rejection::ImportUnversioned),
        ),
{
    law_cut_at_the_last(name, '@');
    if let Some((before, behind)) = cut_last(name, '@') {
        assert(name[before.len() as int] == '@');
    }
}

/// The imports of a component are accepted exactly where each of them is.
pub proof fn law_every_import_is_matched(imports: Seq<Seq<char>>, supported: Seq<Seq<char>>, index: int)
    requires
        0 <= index,
    ensures
        import_fault(imports, supported, index) is None <==> forall|i: int|
            index <= i < imports.len() ==> !(import_of(#[trigger] imports[i], supported) is Refused),
        import_fault(imports, supported, index) matches Some(fault) ==> exists|i: int|
            index <= i < imports.len() && import_of(#[trigger] imports[i], supported) == Import::Refused(fault),
    decreases imports.len() - index,
{
    if index < imports.len() {
        law_every_import_is_matched(imports, supported, index + 1);
        let first = import_of(imports[index], supported);
        if first is Refused {
            assert(first == Import::Refused(first->Refused_0));
        }
    }
}

/// The names of a component are accepted exactly where its exports and its imports are.
pub proof fn law_names_match(world: WorldView, exports: Seq<Seq<char>>, imports: Seq<Seq<char>>)
    ensures
        names_fault(world, exports, imports) is None <==> export_fault(world.exports, exports) is None && forall|i: int|
            0 <= i < world.imports.len() ==> !(import_of(#[trigger] world.imports[i], imports) is Refused),
{
    law_every_import_is_matched(world.imports, imports, 0);
}

/// In the documents of a release stands every package of WASI, under its own name and in its
/// order, and the package of the host's own interfaces is left out.
pub proof fn law_packages_of_a_release(packages: Seq<(Seq<char>, Seq<char>)>, version: Seq<char>, end: int)
    requires
        0 <= end < packages.len(),
    ensures
        ({
            let before = compatible_packages(packages, version, end);
            let after = compatible_packages(packages, version, end + 1);
            let name = packages[end].0;
            &&& name == "sloper-api.wit"@ ==> after == before
            &&& name != "sloper-api.wit"@ ==> after.len() == before.len() + 1 && after.drop_last() == before
                && after.last().0 == name && after.last().1 == compatible_text(packages[end].1, version)
        }),
        compatible_packages(packages, version, 0).len() == 0,
{
    let before = compatible_packages(packages, version, end);
    let (name, source) = packages[end];
    assert(before.push((name, compatible_text(source, version))).drop_last() =~= before);
}

/// A line of a package that says since when something is there, or that it is outdated, is
/// dropped from the text of a release; any other line is kept.
pub proof fn law_lines_of_a_release(line: Seq<char>, rest: Seq<char>)
    ensures
        ({
            let behind = trimmed_start(line);
            let since = seq!['@', 's', 'i', 'n', 'c', 'e', '('];
            let deprecated = seq!['@', 'd', 'e', 'p', 'r', 'e', 'c', 'a', 't', 'e', 'd', '('];
            &&& behind == since + rest ==> !keeps_line(line)
            &&& behind == deprecated + rest ==> !keeps_line(line)
            &&& !since.is_prefix_of(behind) && !deprecated.is_prefix_of(behind) ==> keeps_line(line)
        }),
{
    reveal_strlit("@since(");
    reveal_strlit("@deprecated(");
    assert("@since("@ =~= seq!['@', 's', 'i', 'n', 'c', 'e', '(']);
    assert("@deprecated("@ =~= seq!['@', 'd', 'e', 'p', 'r', 'e', 'c', 'a', 't', 'e', 'd', '(']);
    assert("@since("@.is_prefix_of("@since("@ + rest));
    assert("@deprecated("@.is_prefix_of("@deprecated("@ + rest));
}

/// Every release that a component needs is added once, in order, with its world, whose
/// imports are added to the world of the host.
pub proof fn law_every_release_is_added(
    before: ResolverView,
    packages: Seq<(Seq<char>, Seq<char>)>,
    patches: Seq<u64>,
    index: int,
)
    requires
        0 <= index <= patches.len(),
    ensures
        releases_view(before, packages, patches, index) matches Some(after) ==> {
            let count = patches.len() - index;
            &&& before.groups.is_prefix_of(after.groups) && after.groups.len() == before.groups.len() + count
            &&& before.worlds.is_prefix_of(after.worlds) && after.worlds.len() == before.worlds.len() + count
            &&& before.additions.is_prefix_of(after.additions) && after.additions.len() == before.additions.len() + count
            &&& forall|i: int|
                before.groups.len() <= i < after.groups.len() ==> #[trigger] after.groups[i] == release_group(
                    packages,
                    patches[index + i - before.groups.len()],
                )
            &&& forall|i: int|
                before.additions.len() <= i < after.additions.len() ==> #[trigger] after.additions[i] == (
                    0nat,
                    (before.worlds.len() + i - before.additions.len()) as nat,
                )
        },
    decreases patches.len() - index,
{
    if index < patches.len() {
        lemma_added_release(before, packages, patches[index]);
        if let Some(next) = release_view(before, packages, patches[index]) {
            law_every_release_is_added(next, packages, patches, index + 1);
            if let Some(after) = releases_view(next, packages, patches, index + 1) {
                assert forall|i: int| before.groups.len() <= i < after.groups.len() implies #[trigger] after.groups[i]
                    == release_group(packages, patches[index + i - before.groups.len()]) by {
                    if i == before.groups.len() {
                        assert(after.groups[i] == next.groups[i]);
                    }
                }
                assert forall|i: int| before.additions.len() <= i < after.additions.len() implies #[trigger] after.additions[i]
                    == (0nat, (before.worlds.len() + i - before.additions.len()) as nat) by {
                    if i == before.additions.len() {
                        assert(after.additions[i] == next.additions[i]);
                    }
                }
            }
        }
    }
}

proof fn lemma_added_release(before: ResolverView, packages: Seq<(Seq<char>, Seq<char>)>, patch: u64)
    ensures
        release_view(before, packages, patch) matches Some(next) ==> {
            &&& next.groups == before.groups.push(release_group(packages, patch))
            &&& before.worlds.is_prefix_of(next.worlds) && next.worlds.len() == before.worlds.len() + 1
            &&& next.additions == before.additions.push((0nat, before.worlds.len()))
        },
{
}

/// The room that documents take grows with each by the bytes of its text and one more.
pub proof fn law_room_of_documents(groups: Seq<GroupView>, group: GroupView, document: (Seq<char>, Seq<char>))
    ensures
        total_room(Seq::empty()) == 0,
        total_room(groups.push(group)) == total_room(groups) + group_room(group),
        group_room(GroupView { main: document, documents: Seq::empty() }) == byte_count(document.1) + 1,
        group_room(GroupView { main: group.main, documents: group.documents.push(document) }) == group_room(group)
            + byte_count(document.1) + 1,
{
    let longer = groups.push(group);
    lemma_same_rooms(longer, groups, groups.len());
    lemma_same_room(group.documents.push(document), group.documents, group.documents.len());
}

proof fn lemma_same_rooms(left: Seq<GroupView>, right: Seq<GroupView>, end: nat)
    requires
        forall|i: int| 0 <= i < end ==> left[i] == right[i],
    ensures
        rooms_before(left, end) == rooms_before(right, end),
    decreases end,
{
    if end > 0 {
        lemma_same_rooms(left, right, (end - 1) as nat);
        assert(left[end - 1] == right[end - 1]);
    }
}

proof fn lemma_same_room(left: Seq<(Seq<char>, Seq<char>)>, right: Seq<(Seq<char>, Seq<char>)>, end: nat)
    requires
        forall|i: int| 0 <= i < end ==> left[i] == right[i],
    ensures
        room_before(left, end) == room_before(right, end),
    decreases end,
{
    if end > 0 {
        lemma_same_room(left, right, (end - 1) as nat);
        assert(left[end - 1] == right[end - 1]);
    }
}

proof fn lemma_same_sizes(left: Seq<PackageView>, right: Seq<PackageView>, end: nat)
    requires
        forall|i: int| 0 <= i < end ==> left[i] == right[i],
    ensures
        sizes_before(left, end) == sizes_before(right, end),
    decreases end,
{
    if end > 0 {
        lemma_same_sizes(left, right, (end - 1) as nat);
        assert(left[end - 1] == right[end - 1]);
    }
}

/// Packages that refer to what was added before go on where it ended; those that do not
/// start anew. Each package counts with itself and all that it defines or refers to.
pub proof fn law_chains(packages: Seq<PackageView>, package: PackageView, before: nat)
    ensures
        are_closed(packages) ==> chain_of(packages, before) == chain_of(packages, 0),
        !are_closed(packages) ==> chain_of(packages, before) == chain_of(packages, 0) + before,
        chain_of(packages.push(package), 0) == chain_of(packages, 0) + 1 + package.types + package.interfaces
            + package.worlds,
        chain_of(Seq::empty(), 0) == 0,
{
    lemma_same_sizes(packages.push(package), packages, packages.len());
}

/// The chain of groups is that of the one with the longest.
pub proof fn law_longest_chain(groups: Seq<GroupView>, end: nat)
    requires
        0 < end <= groups.len(),
    ensures
        chain_until(groups, end) >= chain_until(groups, (end - 1) as nat),
        chain_until(groups, end) >= chain_of(group_packages(groups[end - 1]), chain_until(groups, (end - 1) as nat)),
        chain_until(groups, end) == chain_until(groups, (end - 1) as nat) || chain_until(groups, end) == chain_of(
            group_packages(groups[end - 1]),
            chain_until(groups, (end - 1) as nat),
        ),
        chain_until(groups, 0) == 0,
{
}

/// A component is accepted exactly where it is no package, decodes, its names match the
/// world of the host, and it conforms to that world with the releases it needs.
pub proof fn law_worlds_are_accepted(component: Seq<u8>, packages: Seq<(Seq<char>, Seq<char>)>, source: Seq<char>)
    ensures
        world_fault(component, packages, source) is None <==> {
            let host = host_view(packages, source);
            let judgement = judged(decoded_component(component), Some(world_keys(host->0, 0)));
            let whole = releases_view(host->0, packages, judgement->Ok_0, 0);
            &&& !is_package(component)
            &&& decodes(component)
            &&& decoded_component(component) is Some
            &&& host is Some
            &&& names_fault(decoded_component(component)->0, world_keys(host->0, 0).0, world_keys(host->0, 0).1) is None
            &&& whole is Some
            &&& world_targets(whole->0, 0, component)
        },
{
}

/// A component is accepted exactly where it holds one manifest, the manifest is accepted
/// and so is its world.
pub proof fn law_components_are_accepted(
    component: Seq<u8>,
    manifest: Result<(), Seq<FindingView>>,
    packages: Seq<(Seq<char>, Seq<char>)>,
    source: Seq<char>,
)
    ensures
        component_fault(component, manifest, packages, source) is None <==> manifest_of(component) is Ok && manifest is Ok
            && world_fault(component, packages, source) is None,
        manifest_of(component) is Ok ==> (manifest matches Err(findings) ==> component_fault(
            component,
            manifest,
            packages,
            source,
        ) == Some(Fault::Manifest(findings))),
{
}

/// Types are accepted only where they were compared and conform.
pub proof fn law_types_conform(accepted: Option<bool>)
    ensures
        types_fault(accepted) is None <==> accepted == Some(true),
        accepted is None <==> types_fault(accepted) == Some(Fault::World("A compatible release could not be resolved."@)),
{
    reveal_strlit("A compatible release could not be resolved.");
    reveal_strlit("The component does not conform to the extension world.");
    assert("A compatible release could not be resolved."@[0] != "The component does not conform to the extension world."@[0]);
}

} // verus!

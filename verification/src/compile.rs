//! Building a component with Cargo: its messages, its artifacts and its licenses.

use vstd::prelude::*;
use vstd::string::*;

use crate::assembly::{
    assemble_parts, assembly_fault, declare_fragments, fragments_of, is_assembly, law_sections_in_any_order,
    Assembled, Declared, Fragment,
};
use crate::component::{
    check_component, extract_parts, finding_views, law_stamp_keeps_parts, law_stamp_reads_back, manifest_of,
    parts_of, slices, stamp_fault, stamp_manifest, stamped, ComponentError, Fault, Finding, FindingView, MAX_PARTS,
};
use crate::envelope::Rejection;
use crate::json::{json_text, write_json, Json};
use crate::manifest::{listed, lists};
use crate::release::pairs_of;
use crate::text::{in_small_letters, same_bytes, same_text, strip_prefix, write_small};
use crate::tool::Error;
use crate::world::{is_validated, manifest_parses, validate_extension, HostWorld};

verus! {

/// A file that Cargo has made.
pub struct CargoFile {
    pub path: String,
    /// What stands behind the last dot of the file's name.
    pub extension: Option<String>,
}

/// A line that Cargo writes about a build.
pub struct CargoEvent {
    pub package_id: Option<String>,
    pub reason: Option<String>,
    /// The diagnostic as it is to be shown.
    pub rendered: Option<String>,
    /// The kinds of library of the target.
    pub crate_types: Option<Vec<String>>,
    pub filenames: Option<Vec<CargoFile>>,
}

/// The event is of this kind.
pub open spec fn is_about(event: CargoEvent, reason: Seq<char>) -> bool {
    event.reason matches Some(found) && found@ == reason
}

fn about(event: &CargoEvent, reason: &str) -> (found: bool)
    ensures
        found == is_about(*event, reason@),
{
    match &event.reason {
        Some(found) => same_text(found.as_str(), reason),
        None => false,
    }
}

/// Returns the diagnostic that an event asks to show.
pub fn diagnostic(event: &CargoEvent) -> (shown: Option<&str>)
    ensures
        match shown {
            Some(shown) => is_about(*event, "compiler-message"@) && (event.rendered matches Some(text) && text@
                == shown@),
            None => !is_about(*event, "compiler-message"@) || event.rendered is None,
        },
{
    if !about(event, "compiler-message") {
        return None;
    }
    match &event.rendered {
        Some(text) => Some(text.as_str()),
        None => None,
    }
}

/// A component that Cargo has built, and the package it belongs to.
pub struct Artifact {
    pub path: String,
    pub package_id: String,
}

/// What an artifact is.
pub ghost struct ArtifactView {
    pub path: Seq<char>,
    pub package_id: Seq<char>,
}

impl View for Artifact {
    type V = ArtifactView;

    open spec fn view(&self) -> ArtifactView {
        ArtifactView { path: self.path@, package_id: self.package_id@ }
    }
}

/// What several artifacts are.
pub open spec fn artifacts_of(artifacts: Seq<Artifact>) -> Seq<ArtifactView> {
    artifacts.map_values(|artifact: Artifact| artifact@)
}

/// The event reports the files of a component library.
pub open spec fn reports_library(event: CargoEvent) -> bool {
    &&& is_about(event, "compiler-artifact"@)
    &&& event.crate_types matches Some(types) && lists(types@, "cdylib"@)
    &&& event.filenames is Some
}

/// The file is WebAssembly by its name.
pub open spec fn is_wasm(file: CargoFile) -> bool {
    file.extension matches Some(extension) && in_small_letters(extension@) == "wasm"@
}

fn wasm(file: &CargoFile) -> (found: bool)
    ensures
        found == is_wasm(*file),
{
    match &file.extension {
        Some(extension) => same_text(write_small(extension.as_str()).as_str(), "wasm"),
        None => false,
    }
}

/// The WebAssembly files among the first `end`, as artifacts of a package.
pub open spec fn wasm_files(files: Seq<CargoFile>, package_id: Seq<char>, end: int) -> Seq<ArtifactView>
    decreases end,
{
    if end <= 0 {
        Seq::empty()
    } else {
        let earlier = wasm_files(files, package_id, end - 1);
        if is_wasm(files[end - 1]) {
            earlier.push(ArtifactView { path: files[end - 1].path@, package_id })
        } else {
            earlier
        }
    }
}

/// Adds the components that an event reports to those that were reported before.
pub fn collect_artifacts(event: &CargoEvent, artifacts: &mut Vec<Artifact>) -> (collected: Result<(), Error>)
    ensures
        if !reports_library(*event) {
            collected == Ok::<(), Error>(()) && *final(artifacts) == *old(artifacts)
        } else {
            match event.package_id {
                None => {
                    &&& collected matches Err(Error::InvalidResponse(message)) && message@
                        == "Cargo artifact has no package identity"@
                    &&& *final(artifacts) == *old(artifacts)
                },
                Some(id) => {
                    let files = event.filenames->Some_0@;
                    &&& collected == Ok::<(), Error>(())
                    &&& artifacts_of(final(artifacts)@) == artifacts_of(old(artifacts)@) + wasm_files(
                        files,
                        id@,
                        files.len() as int,
                    )
                },
            }
        },
{
    if !about(event, "compiler-artifact") {
        return Ok(());
    }
    match &event.crate_types {
        Some(types) => {
            if !listed(types, "cdylib") {
                return Ok(());
            }
        },
        None => return Ok(()),
    }
    let files = match &event.filenames {
        Some(files) => files,
        None => return Ok(()),
    };
    let id = match &event.package_id {
        Some(id) => id,
        None => return Err(Error::InvalidResponse("Cargo artifact has no package identity".to_owned())),
    };
    let ghost before = artifacts_of(artifacts@);
    let mut index: usize = 0;
    assert(before + Seq::<ArtifactView>::empty() =~= before);
    while index < files.len()
        invariant
            index <= files.len(),
            artifacts_of(artifacts@) == before + wasm_files(files@, id@, index as int),
        decreases files.len() - index,
    {
        let ghost earlier = artifacts@;
        if wasm(&files[index]) {
            artifacts.push(Artifact { path: files[index].path.clone(), package_id: id.clone() });
            proof {
                assert(artifacts_of(artifacts@) =~= artifacts_of(earlier).push(artifacts@.last()@));
                assert(artifacts_of(artifacts@) =~= before + wasm_files(files@, id@, index + 1));
            }
        }
        index += 1;
    }
    Ok(())
}

/// Decides which component a build has made. `success` says how Cargo ended.
pub fn built_artifact(success: bool, artifacts: Vec<Artifact>) -> (artifact: Result<Artifact, Error>)
    ensures
        if !success {
            artifact matches Err(Error::Invalid(message)) && message@
                == "extension Cargo build failed; see standard error"@
        } else if artifacts@.len() != 1 {
            artifact matches Err(Error::Invalid(message)) && message@
                == "extension build must produce exactly one Cargo library component"@
        } else {
            artifact == Ok::<_, Error>(artifacts@[0])
        },
{
    if !success {
        return Err(Error::Invalid("extension Cargo build failed; see standard error".to_owned()));
    }
    let mut left = artifacts;
    match left.pop() {
        Some(artifact) => {
            if left.len() == 0 {
                return Ok(artifact);
            }
        },
        None => {},
    }
    Err(Error::Invalid("extension build must produce exactly one Cargo library component".to_owned()))
}

/// The variable that holds the bearer of the publication service.
pub const API_TOKEN: &'static str = "SLOPER_API_TOKEN";

/// What the variables start with that hold the bearers of connections.
pub const TOKEN_PREFIX: &'static str = "SLOPER_TOKEN_";

/// The variable holds a bearer, which no build script may see.
pub open spec fn is_credential(name: Seq<char>) -> bool {
    name == API_TOKEN@ || TOKEN_PREFIX@.is_prefix_of(name)
}

/// Whether a build must not inherit the variable `name`.
pub fn strips_credential(name: &str) -> (strips: bool)
    ensures
        strips == is_credential(name@),
{
    let prefixed = strip_prefix(name, TOKEN_PREFIX);
    assert(prefixed is Some ==> TOKEN_PREFIX@.is_prefix_of(name@));
    same_text(name, API_TOKEN) || prefixed.is_some()
}

/// What static checks say of a component that passed them.
#[derive(Debug)]
pub struct CheckResult {
    pub valid: bool,
    pub findings: Vec<Finding>,
    /// The declaration that the component embeds.
    pub manifest: Json,
}

/// The distribution that a build has written.
#[derive(Debug)]
pub struct BuildResult {
    /// Where the stamped component stands.
    pub component: String,
    pub check: CheckResult,
    /// Where the icon stands, where there is one.
    pub icon: Option<String>,
}

/// Reports on a component. `verdict` is the manifest that the checks accept, or why
/// they refuse the component.
pub fn check_validated(verdict: Result<Json, ComponentError>) -> (checked: Result<CheckResult, Error>)
    ensures
        match verdict {
            Ok(manifest) => checked matches Ok(checked) && checked.valid && checked.findings@.len() == 0
                && checked.manifest == manifest,
            Err(error) => checked matches Err(Error::ComponentCheck(findings, manifest)) && finding_views(findings@)
                == error.findings_spec() && manifest == Json::Null,
        },
{
    match verdict {
        Ok(manifest) => Ok(CheckResult { valid: true, findings: Vec::new(), manifest }),
        Err(error) => Err(Error::ComponentCheck(error.findings(), Json::Null)),
    }
}

/// The finding on a component that is not what its sources build.
pub open spec fn stale_finding() -> FindingView {
    FindingView {
        code: "EXTENSION_BUILD_STALE"@,
        location: "dist/extension.wasm"@,
        message: "Built component differs from fresh assembly"@,
    }
}

/// Judges a built component: it has to be valid, and to embed what its declarations
/// assemble to. `validated` is the manifest that the checks accept, or why they refuse the
/// component, and `assembled` what its declarations assemble to.
pub fn judge_component(
    component: &[u8],
    validated: Result<Json, ComponentError>,
    assembled: Result<Vec<u8>, ComponentError>,
) -> (judged: Result<CheckResult, Error>)
    ensures
        match validated {
            Err(error) => judged == Err::<CheckResult, _>(Error::Component(error)),
            Ok(found) => match manifest_of(component@) {
                Err(rejection) => judged == Err::<CheckResult, _>(
                    Error::Component(ComponentError::Rejected(rejection)),
                ),
                Ok(embedded) => match parts_of(component@) {
                    Err(rejection) => judged == Err::<CheckResult, _>(
                        Error::Component(ComponentError::Assembly(rejection)),
                    ),
                    Ok(_) => match assembled {
                        Err(error) => judged == Err::<CheckResult, _>(Error::Component(error)),
                        Ok(bytes) => if bytes@ == embedded {
                            judged matches Ok(checked) && checked.valid && checked.findings@.len() == 0
                                && checked.manifest == found
                        } else {
                            judged == Err::<CheckResult, _>(
                                Error::Component(ComponentError::Rejected(Rejection::ManifestMismatch)),
                            )
                        },
                    },
                },
            },
        },
{
    let manifest = match validated {
        Ok(manifest) => manifest,
        Err(error) => return Err(Error::Component(error)),
    };
    match check_component(component, Ok(()), assembled) {
        Ok(_) => check_validated(Ok(manifest)),
        Err(error) => Err(Error::Component(error)),
    }
}

/// Checks that a distributed component, whose own check is `checked`, is what its
/// sources build.
pub fn check_current(existing: &[u8], fresh: &[u8], checked: CheckResult) -> (current: Result<CheckResult, Error>)
    ensures
        if existing@ == fresh@ {
            current == Ok::<_, Error>(checked)
        } else {
            current matches Err(Error::ComponentCheck(findings, manifest)) && finding_views(findings@)
                == seq![stale_finding()] && manifest == checked.manifest
        },
{
    if same_bytes(existing, fresh) {
        return Ok(checked);
    }
    let mut findings: Vec<Finding> = Vec::new();
    findings.push(
        Finding {
            code: "EXTENSION_BUILD_STALE".to_owned(),
            location: "dist/extension.wasm".to_owned(),
            message: "Built component differs from fresh assembly".to_owned(),
        },
    );
    assert(finding_views(findings@) =~= seq![stale_finding()]);
    Err(Error::ComponentCheck(findings, checked.manifest))
}

/// A package that Cargo knows.
pub struct Package {
    pub id: String,
    /// The license that it declares, a path from its directory.
    pub license_file: Option<String>,
    /// The directory of its manifest, where the manifest has one.
    pub directory: Option<String>,
}

/// Finds the package that a component was built from.
pub fn built_package(packages: &Vec<Package>, id: &str) -> (found: Result<usize, Error>)
    ensures
        match found {
            Ok(index) => index < packages@.len() && packages@[index as int].id@ == id@ && forall|i: int|
                0 <= i < index ==> (#[trigger] packages@[i]).id@ != id@,
            Err(error) => (error matches Error::InvalidResponse(message) && message@
                == "Built extension is absent from Cargo metadata"@) && forall|i: int|
                0 <= i < packages@.len() ==> (#[trigger] packages@[i]).id@ != id@,
        },
{
    let mut index: usize = 0;
    while index < packages.len()
        invariant
            index <= packages.len(),
            forall|i: int| 0 <= i < index ==> (#[trigger] packages@[i]).id@ != id@,
        decreases packages.len() - index,
    {
        if same_text(packages[index].id.as_str(), id) {
            return Ok(index);
        }
        index += 1;
    }
    Err(Error::InvalidResponse("Built extension is absent from Cargo metadata".to_owned()))
}

/// Where a license is read from, below the package's directory.
pub struct LicenseSource<'a> {
    /// The package's directory.
    pub directory: &'a str,
    pub path: &'a str,
    /// The file has to be there.
    pub required: bool,
}

/// Decides where the license of a package is read from: what it declares, or its own
/// `LICENSE` where there is one, never a file of an unrelated directory around it.
pub fn license_source(package: &Package) -> (source: Result<LicenseSource<'_>, Error>)
    ensures
        match package.directory {
            None => source matches Err(Error::InvalidResponse(message)) && message@
                == "Cargo package manifest has no directory"@,
            Some(directory) => source matches Ok(source) && source.directory@ == directory@ && (
            match package.license_file {
                Some(path) => source.path@ == path@ && source.required,
                None => source.path@ == "LICENSE"@ && !source.required,
            }),
        },
{
    let directory = match &package.directory {
        Some(directory) => directory.as_str(),
        None => return Err(Error::InvalidResponse("Cargo package manifest has no directory".to_owned())),
    };
    match &package.license_file {
        Some(path) => Ok(LicenseSource { directory, path: path.as_str(), required: true }),
        None => Ok(LicenseSource { directory, path: "LICENSE", required: false }),
    }
}

/// What happens to a file of the distribution.
pub enum Placement {
    Write(&'static str, Vec<u8>),
    Remove(&'static str),
}

/// A file of the distribution holds these bytes, or is not there.
pub open spec fn places(placement: Placement, name: Seq<char>, bytes: Option<Vec<u8>>) -> bool {
    match bytes {
        Some(bytes) => placement matches Placement::Write(file, held) && file@ == name && held == bytes,
        None => placement matches Placement::Remove(file) && file@ == name,
    }
}

/// Decides what becomes of the license and of the notices in the distribution, once
/// both are read.
pub fn place_licenses(license: Option<Vec<u8>>, notices: Option<Vec<u8>>) -> (placements: (Placement, Placement))
    ensures
        places(placements.0, "LICENSE"@, license),
        places(placements.1, "ThirdPartyNotices.txt"@, notices),
{
    (
        match license {
            Some(bytes) => Placement::Write("LICENSE", bytes),
            None => Placement::Remove("LICENSE"),
        },
        match notices {
            Some(bytes) => Placement::Write("ThirdPartyNotices.txt", bytes),
            None => Placement::Remove("ThirdPartyNotices.txt"),
        },
    )
}

/// What the declaration sections of a component hold, as they were decoded.
pub open spec fn fragments_read<D: Fn(&[u8]) -> Result<Vec<Json>, Vec<Finding>>>(
    parts: Seq<&[u8]>,
    decode: D,
    fragments: Seq<Fragment>,
) -> bool {
    &&& fragments.len() == parts.len()
    &&& forall|index: int|
        0 <= index < parts.len() ==> (#[trigger] fragments[index]).size == parts[index]@.len() && call_ensures(
            decode,
            (parts[index],),
            fragments[index].values,
        )
}

fn read_fragments<D: Fn(&[u8]) -> Result<Vec<Json>, Vec<Finding>>>(parts: &Vec<&[u8]>, decode: &D) -> (fragments: Vec<
    Fragment,
>)
    requires
        forall|part: &[u8]| call_requires(*decode, (part,)),
    ensures
        fragments_read(parts@, *decode, fragments@),
{
    let mut fragments: Vec<Fragment> = Vec::new();
    let mut index: usize = 0;
    while index < parts.len()
        invariant
            index <= parts.len(),
            fragments@.len() == index,
            forall|part: &[u8]| call_requires(*decode, (part,)),
            forall|i: int|
                0 <= i < index ==> (#[trigger] fragments@[i]).size == parts@[i]@.len() && call_ensures(
                    *decode,
                    (parts@[i],),
                    fragments@[i].values,
                ),
        decreases parts.len() - index,
    {
        let part = parts[index];
        let values = decode(part);
        fragments.push(Fragment { size: part.len(), values });
        index += 1;
    }
    fragments
}

/// The manifest of assembled declarations was encoded so.
pub open spec fn encodes<E: Fn(&String) -> Result<Vec<u8>, Vec<Finding>>>(
    declared: Declared,
    encode: E,
    encoded: Result<Vec<u8>, Vec<Finding>>,
) -> bool {
    exists|assembled: Assembled, text: String|
        {
            &&& #[trigger] is_assembly(declared, assembled)
            &&& text@ == json_text(assembled.document_spec())
            &&& #[trigger] call_ensures(encode, (&text,), encoded)
        }
}

/// What declaration sections that were decoded so assemble to.
pub open spec fn assembles<E: Fn(&String) -> Result<Vec<u8>, Vec<Finding>>>(
    fragments: Seq<Fragment>,
    encode: E,
    result: Result<Vec<u8>, ComponentError>,
) -> bool {
    if fragments.len() > MAX_PARTS {
        result matches Err(error) && error@ == Fault::Rejected(Rejection::TooManySections)
    } else {
        match declare_fragments(Declared::none(), 0, 0, fragments_of(fragments)) {
            Err(fault) => result matches Err(error) && error@ == fault,
            Ok(declared) => match assembly_fault(declared) {
                Some(rejection) => result matches Err(error) && error@ == Fault::Rejected(rejection),
                None => match result {
                    Ok(bytes) => encodes(declared, encode, Ok(bytes)),
                    Err(error) => error matches ComponentError::Manifest(findings) && encodes(
                        declared,
                        encode,
                        Err(findings),
                    ),
                },
            },
        }
    }
}

/// Assembles the manifest that declaration sections describe. `decode` reads the strict
/// JSON values of a section, and `encode` checks a manifest and writes it in its canonical
/// form.
pub fn assemble_sections<
    D: Fn(&[u8]) -> Result<Vec<Json>, Vec<Finding>>,
    E: Fn(&String) -> Result<Vec<u8>, Vec<Finding>>,
>(parts: &Vec<&[u8]>, decode: &D, encode: &E) -> (result: Result<Vec<u8>, ComponentError>)
    requires
        forall|part: &[u8]| call_requires(*decode, (part,)),
        forall|text: &String| call_requires(*encode, (text,)),
    ensures
        exists|fragments: Seq<Fragment>| #[trigger]
            fragments_read(parts@, *decode, fragments) && assembles(fragments, *encode, result),
{
    let fragments = read_fragments(parts, decode);
    let ghost read = fragments@;
    let assembled = match assemble_parts(fragments) {
        Ok(assembled) => assembled,
        Err(error) => {
            let result: Result<Vec<u8>, ComponentError> = Err(error);
            assert(fragments_read(parts@, *decode, read) && assembles(read, *encode, result));
            return result;
        },
    };
    let ghost declared = declare_fragments(Declared::none(), 0, 0, fragments_of(read))->Ok_0;
    let ghost built = assembled;
    let text = write_json(&assembled.document());
    let encoded = encode(&text);
    assert(call_ensures(*encode, (&text,), encoded));
    assert(is_assembly(declared, built) && encodes(declared, *encode, encoded));
    let result: Result<Vec<u8>, ComponentError> = match encoded {
        Ok(bytes) => Ok(bytes),
        Err(findings) => Err(ComponentError::Manifest(findings)),
    };
    assert(fragments_read(parts@, *decode, read) && assembles(read, *encode, result));
    result
}

/// The declarations of a component assemble so.
pub open spec fn component_assembles<
    D: Fn(&[u8]) -> Result<Vec<Json>, Vec<Finding>>,
    E: Fn(&String) -> Result<Vec<u8>, Vec<Finding>>,
>(component: Seq<u8>, decode: D, encode: E, result: Result<Vec<u8>, ComponentError>) -> bool {
    match parts_of(component) {
        Err(rejection) => result == Err::<Vec<u8>, _>(ComponentError::Assembly(rejection)),
        Ok(expected) => exists|parts: Seq<&[u8]>, fragments: Seq<Fragment>|
            slices(parts) == expected && #[trigger] fragments_read(parts, decode, fragments) && assembles(
                fragments,
                encode,
                result,
            ),
    }
}

/// Assembles the manifest that the declarations of a component describe.
pub fn assemble_component<
    D: Fn(&[u8]) -> Result<Vec<Json>, Vec<Finding>>,
    E: Fn(&String) -> Result<Vec<u8>, Vec<Finding>>,
>(component: &[u8], decode: &D, encode: &E) -> (result: Result<Vec<u8>, ComponentError>)
    requires
        forall|part: &[u8]| call_requires(*decode, (part,)),
        forall|text: &String| call_requires(*encode, (text,)),
    ensures
        component_assembles(component@, *decode, *encode, result),
{
    let parts = match extract_parts(component) {
        Ok(parts) => parts,
        Err(error) => return Err(error),
    };
    let result = assemble_sections(&parts, decode, encode);
    proof {
        let fragments = choose|fragments: Seq<Fragment>| #[trigger]
            fragments_read(parts@, *decode, fragments) && assembles(fragments, *encode, result);
        assert(slices(parts@) == parts_of(component@)->Ok_0 && fragments_read(parts@, *decode, fragments));
    }
    result
}

/// The outcome of comparing the manifest that a component embeds with what its declarations
/// assemble to, where the checks before it came to `validated`.
pub open spec fn is_checked(
    component: Seq<u8>,
    validated: Result<Json, ComponentError>,
    assembled: Result<Vec<u8>, ComponentError>,
    checked: Result<Json, ComponentError>,
) -> bool {
    match (validated, assembled) {
        (Err(error), _) => checked == Err::<Json, _>(error),
        (Ok(_), Err(error)) => checked == Err::<Json, _>(error),
        (Ok(manifest), Ok(bytes)) => if Ok::<_, Rejection>(bytes@) == manifest_of(component) {
            checked == Ok::<_, ComponentError>(manifest)
        } else {
            checked == Err::<Json, _>(ComponentError::Rejected(Rejection::ManifestMismatch))
        },
    }
}

/// Checks a component and compares the manifest that it embeds with what its declarations
/// assemble to. `parse` is the manifest parser.
pub fn check_extension<
    P: Fn(&[u8]) -> Result<Json, Vec<Finding>>,
    D: Fn(&[u8]) -> Result<Vec<Json>, Vec<Finding>>,
    E: Fn(&String) -> Result<Vec<u8>, Vec<Finding>>,
>(component: &[u8], parse: &P, host: &HostWorld, decode: &D, encode: &E) -> (checked: Result<Json, ComponentError>)
    requires
        forall|bytes: &[u8]| call_requires(*parse, (bytes,)),
        forall|part: &[u8]| call_requires(*decode, (part,)),
        forall|text: &String| call_requires(*encode, (text,)),
    ensures
        exists|
            verdict: Result<Json, Vec<Finding>>,
            validated: Result<Json, ComponentError>,
            assembled: Result<Vec<u8>, ComponentError>,
        |
            #![trigger manifest_parses(component@, *parse, verdict), is_checked(component@, validated, assembled, checked)]
            {
                &&& manifest_parses(component@, *parse, verdict)
                &&& is_validated(component@, verdict, pairs_of(host.packages@), host.source@, validated)
                &&& component_assembles(component@, *decode, *encode, assembled)
                &&& is_checked(component@, validated, assembled, checked)
            },
{
    let validated = validate_extension(component, parse, host);
    let assembled = assemble_component(component, decode, encode);
    let ghost verdict = choose|verdict: Result<Json, Vec<Finding>>| #[trigger]
        manifest_parses(component@, *parse, verdict) && is_validated(
            component@,
            verdict,
            pairs_of(host.packages@),
            host.source@,
            validated,
        );
    let ghost first = validated;
    let ghost second = assembled;
    let checked = match validated {
        Ok(manifest) => match check_component(component, Ok(()), assembled) {
            Ok(_) => Ok(manifest),
            Err(error) => Err(error),
        },
        Err(error) => Err(error),
    };
    assert(manifest_parses(component@, *parse, verdict) && is_checked(component@, first, second, checked));
    checked
}

/// Judges a built component, and reports on it. `parse` is the manifest parser.
pub fn judge_extension<
    P: Fn(&[u8]) -> Result<Json, Vec<Finding>>,
    D: Fn(&[u8]) -> Result<Vec<Json>, Vec<Finding>>,
    E: Fn(&String) -> Result<Vec<u8>, Vec<Finding>>,
>(component: &[u8], parse: &P, host: &HostWorld, decode: &D, encode: &E) -> (judged: Result<CheckResult, Error>)
    requires
        forall|bytes: &[u8]| call_requires(*parse, (bytes,)),
        forall|part: &[u8]| call_requires(*decode, (part,)),
        forall|text: &String| call_requires(*encode, (text,)),
    ensures
        exists|
            verdict: Result<Json, Vec<Finding>>,
            validated: Result<Json, ComponentError>,
            assembled: Result<Vec<u8>, ComponentError>,
            checked: Result<Json, ComponentError>,
        |
            #![trigger manifest_parses(component@, *parse, verdict), is_checked(component@, validated, assembled, checked)]
            {
                &&& manifest_parses(component@, *parse, verdict)
                &&& is_validated(component@, verdict, pairs_of(host.packages@), host.source@, validated)
                &&& component_assembles(component@, *decode, *encode, assembled)
                &&& is_checked(component@, validated, assembled, checked)
                &&& match checked {
                    Ok(manifest) => judged matches Ok(judged) && judged.valid && judged.findings@.len() == 0
                        && judged.manifest == manifest,
                    Err(error) => judged == Err::<CheckResult, _>(Error::Component(error)),
                }
            },
{
    match check_extension(component, parse, host, decode, encode) {
        Ok(manifest) => check_validated(Ok(manifest)),
        Err(error) => Err(Error::Component(error)),
    }
}

/// A component that Cargo has built and that carries its manifest.
pub struct Compiled {
    pub component: Vec<u8>,
    pub package_id: String,
}

/// Stamps what Cargo has built with the manifest that its declarations describe. `accept`
/// is the manifest validator.
pub fn stamp_artifact<
    D: Fn(&[u8]) -> Result<Vec<Json>, Vec<Finding>>,
    E: Fn(&String) -> Result<Vec<u8>, Vec<Finding>>,
    A: Fn(&Vec<u8>) -> Result<(), Vec<Finding>>,
>(component: &[u8], package_id: String, decode: &D, encode: &E, accept: &A) -> (compiled: Result<Compiled, Error>)
    requires
        forall|part: &[u8]| call_requires(*decode, (part,)),
        forall|text: &String| call_requires(*encode, (text,)),
        forall|manifest: &Vec<u8>| call_requires(*accept, (manifest,)),
    ensures
        match compiled {
            Ok(compiled) => {
                &&& compiled.package_id == package_id
                &&& exists|manifest: Vec<u8>, verdict: Result<(), Vec<Finding>>|
                    {
                        &&& component_assembles(component@, *decode, *encode, Ok(manifest))
                        &&& #[trigger] call_ensures(*accept, (&manifest,), verdict)
                        &&& stamp_fault(component@, manifest@, verdict) is None
                        &&& compiled.component@ == stamped(component@, manifest@)
                    }
            },
            Err(error) => error matches Error::Component(cause) && (component_assembles(
                component@,
                *decode,
                *encode,
                Err(cause),
            ) || exists|manifest: Vec<u8>, verdict: Result<(), Vec<Finding>>|
                {
                    &&& component_assembles(component@, *decode, *encode, Ok(manifest))
                    &&& #[trigger] call_ensures(*accept, (&manifest,), verdict)
                    &&& stamp_fault(component@, manifest@, verdict) == Some(cause)
                }),
        },
{
    let manifest = match assemble_component(component, decode, encode) {
        Ok(manifest) => manifest,
        Err(error) => return Err(Error::Component(error)),
    };
    let verdict = accept(&manifest);
    let ghost said = verdict;
    assert(call_ensures(*accept, (&manifest,), said));
    match stamp_manifest(component, manifest.as_slice(), verdict) {
        Ok(bytes) => Ok(Compiled { component: bytes, package_id }),
        Err(error) => Err(Error::Component(error)),
    }
}

/// A component that was stamped carries the manifest it was stamped with, and its
/// declarations assemble as they did before: a fresh build is current.
pub proof fn law_stamped_component_assembles_again<
    D: Fn(&[u8]) -> Result<Vec<Json>, Vec<Finding>>,
    E: Fn(&String) -> Result<Vec<u8>, Vec<Finding>>,
>(component: Seq<u8>, decode: D, encode: E, manifest: Vec<u8>)
    requires
        component_assembles(component, decode, encode, Ok(manifest)),
        stamp_fault(component, manifest@, Ok(())) is None,
    ensures
        manifest_of(stamped(component, manifest@)) == Ok::<Seq<u8>, Rejection>(manifest@),
        component_assembles(stamped(component, manifest@), decode, encode, Ok(manifest)),
{
    law_stamp_reads_back(component, manifest@, Ok(()));
    law_stamp_keeps_parts(component, manifest@);
}

/// The order of the declaration sections does not matter: where sections assemble to some
/// bytes, the same sections in another order assemble to the same bytes.
pub proof fn law_parts_in_any_order<
    D: Fn(&[u8]) -> Result<Vec<Json>, Vec<Finding>>,
    E: Fn(&String) -> Result<Vec<u8>, Vec<Finding>>,
>(parts: Seq<&[u8]>, other: Seq<&[u8]>, decode: D, encode: E, bytes: Vec<u8>)
    requires
        parts.to_multiset() == other.to_multiset(),
        exists|fragments: Seq<Fragment>| #[trigger]
            fragments_read(parts, decode, fragments) && assembles(fragments, encode, Ok(bytes)),
    ensures
        exists|fragments: Seq<Fragment>| #[trigger]
            fragments_read(other, decode, fragments) && assembles(fragments, encode, Ok(bytes)),
{
    let fragments = choose|fragments: Seq<Fragment>| #[trigger]
        fragments_read(parts, decode, fragments) && assembles(fragments, encode, Ok(bytes));
    lemma_read_in_any_order(parts, other, decode, fragments);
    let moved = choose|moved: Seq<Fragment>| #[trigger]
        fragments_read(other, decode, moved) && fragments_of(moved).to_multiset() == fragments_of(
            fragments,
        ).to_multiset();
    let views = fragments_of(fragments);
    assert forall|i: int| 0 <= i < views.len() implies (#[trigger] views[i]).size >= 0 by {
        assert(views[i] == fragments[i]@);
    }
    law_sections_in_any_order(Declared::none(), 0, 0, views, fragments_of(moved));
    assert(views.len() == fragments_of(moved).len()) by {
        views.to_multiset_ensures();
        fragments_of(moved).to_multiset_ensures();
    }
    assert(fragments_read(other, decode, moved) && assembles(moved, encode, Ok(bytes)));
}

proof fn lemma_read_in_any_order<D: Fn(&[u8]) -> Result<Vec<Json>, Vec<Finding>>>(
    parts: Seq<&[u8]>,
    other: Seq<&[u8]>,
    decode: D,
    fragments: Seq<Fragment>,
)
    requires
        parts.to_multiset() == other.to_multiset(),
        fragments_read(parts, decode, fragments),
    ensures
        exists|moved: Seq<Fragment>| #[trigger]
            fragments_read(other, decode, moved) && fragments_of(moved).to_multiset() == fragments_of(
                fragments,
            ).to_multiset(),
    decreases other.len(),
{
    broadcast use vstd::seq_lib::group_to_multiset_ensures;

    assert(parts.len() == other.len()) by {
        parts.to_multiset_ensures();
        other.to_multiset_ensures();
    }
    if other.len() == 0 {
        assert(parts =~= other);
    } else {
        assert(other.to_multiset().count(other[0]) > 0) by {
            other.to_multiset_ensures();
            assert(other.contains(other[0]));
        }
        assert(parts.contains(other[0])) by {
            parts.to_multiset_ensures();
        }
        let index = choose|i: int| 0 <= i < parts.len() && parts[i] == other[0];
        let rest = parts.remove(index);
        let read = fragments.remove(index);
        assert(rest.to_multiset() =~= other.drop_first().to_multiset()) by {
            parts.to_multiset_ensures();
            other.to_multiset_ensures();
            assert(other.remove(0) =~= other.drop_first());
        }
        assert(fragments_read(rest, decode, read)) by {
            assert forall|i: int| 0 <= i < rest.len() implies (#[trigger] read[i]).size == rest[i]@.len()
                && call_ensures(decode, (rest[i],), read[i].values) by {
                if i < index {
                    assert(read[i] == fragments[i] && rest[i] == parts[i]);
                } else {
                    assert(read[i] == fragments[i + 1] && rest[i] == parts[i + 1]);
                }
            }
        }
        lemma_read_in_any_order(rest, other.drop_first(), decode, read);
        let tail = choose|moved: Seq<Fragment>| #[trigger]
            fragments_read(other.drop_first(), decode, moved) && fragments_of(moved).to_multiset() == fragments_of(
                read,
            ).to_multiset();
        let moved = seq![fragments[index]] + tail;
        assert(fragments_read(other, decode, moved)) by {
            assert forall|i: int| 0 <= i < other.len() implies (#[trigger] moved[i]).size == other[i]@.len()
                && call_ensures(decode, (other[i],), moved[i].values) by {
                if i > 0 {
                    assert(moved[i] == tail[i - 1] && other[i] == other.drop_first()[i - 1]);
                } else {
                    assert(moved[i] == fragments[index]);
                }
            }
        }
        let views = fragments_of(fragments);
        assert(fragments_of(moved) =~= seq![views[index]] + fragments_of(tail));
        assert(fragments_of(read) =~= views.remove(index));
        assert(fragments_of(moved).remove(0) =~= fragments_of(tail));
        assert(fragments_of(moved)[0] == views[index]);
        views.to_multiset_ensures();
        fragments_of(moved).to_multiset_ensures();
        assert(views.remove(index).to_multiset() =~= views.to_multiset().remove(views[index]));
        assert(fragments_of(moved).remove(0).to_multiset() =~= fragments_of(moved).to_multiset().remove(views[index]));
        assert(views.contains(views[index]));
        assert(fragments_of(moved).contains(views[index])) by {
            assert(fragments_of(moved)[0] == views[index]);
        }
        assert(views.to_multiset().count(views[index]) > 0);
        assert(fragments_of(moved).to_multiset().count(views[index]) > 0);
        assert(views.to_multiset() =~= views.to_multiset().remove(views[index]).insert(views[index]));
        assert(fragments_of(moved).to_multiset() =~= fragments_of(moved).to_multiset().remove(views[index]).insert(
            views[index],
        ));
        assert(fragments_of(moved).to_multiset() == views.to_multiset());
    }
}

/// Every file that ends in `.wasm`, in letters of either case, is an artifact of its
/// package, in its order, and no other file is.
pub proof fn law_wasm_files(files: Seq<CargoFile>, package: Seq<char>, end: int)
    requires
        0 <= end < files.len(),
    ensures
        ({
            let before = wasm_files(files, package, end);
            let after = wasm_files(files, package, end + 1);
            let ending = files[end].extension;
            let wasm = ending is Some && in_small_letters(ending->0@) == seq!['w', 'a', 's', 'm'];
            &&& wasm ==> after == before.push(ArtifactView { path: files[end].path@, package_id: package })
            &&& !wasm ==> after == before
        }),
        wasm_files(files, package, 0).len() == 0,
{
    reveal_strlit("wasm");
    assert("wasm"@ =~= seq!['w', 'a', 's', 'm']);
}

/// A variable is kept from the build where it is the token of the service or begins as the
/// token of a connection does.
pub proof fn law_credentials_are_kept_from_builds(name: Seq<char>, connection: Seq<char>)
    ensures
        is_credential("SLOPER_API_TOKEN"@),
        is_credential("SLOPER_TOKEN_"@ + connection),
        is_credential(name) ==> name == "SLOPER_API_TOKEN"@ || name.len() >= 13 && name.take(13) == "SLOPER_TOKEN_"@,
{
    reveal_strlit("SLOPER_TOKEN_");
    assert("SLOPER_TOKEN_"@.len() == 13);
    assert("SLOPER_TOKEN_"@.is_prefix_of("SLOPER_TOKEN_"@ + connection));
    if TOKEN_PREFIX@.is_prefix_of(name) {
        assert(name.take(13) =~= "SLOPER_TOKEN_"@);
    }
}

/// An event tells of the library exactly where it reports an artifact, a dynamic library is
/// among the kinds of its crate, and it names files.
pub proof fn law_events_of_libraries(event: CargoEvent)
    ensures
        reports_library(event) <==> {
            &&& event.reason is Some && event.reason->0@ == "compiler-artifact"@
            &&& event.crate_types is Some && exists|i: int|
                0 <= i < event.crate_types->0@.len() && (#[trigger] event.crate_types->0@[i])@ == "cdylib"@
            &&& event.filenames is Some
        },
{
}

/// A component passes its check only where it is valid and embeds exactly what its
/// declarations assemble to.
pub proof fn law_checked_components(
    component: Seq<u8>,
    validated: Result<Json, ComponentError>,
    assembled: Result<Vec<u8>, ComponentError>,
    checked: Result<Json, ComponentError>,
)
    requires
        is_checked(component, validated, assembled, checked),
    ensures
        checked is Ok <==> validated is Ok && assembled is Ok && manifest_of(component) == Ok::<Seq<u8>, Rejection>(
            assembled->Ok_0@,
        ),
        checked is Ok ==> checked == validated,
{
}

} // verus!

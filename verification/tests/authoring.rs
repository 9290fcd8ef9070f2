//! The authoring tool: building, checking, scaffolding, and how its commands report.

use serde_json::Value;
use sloper_extension::command::{
    fixture, fixture_arguments, fixtures, json_media, pinned_revision, run_arguments, run_outcome, show_result, usage,
    validation_exit, RunOptions,
};
use sloper_extension::compile::{
    assemble_component, built_artifact, built_package, check_current, check_validated, collect_artifacts, diagnostic,
    judge_component, license_source, place_licenses, stamp_artifact, strips_credential, Artifact, CargoEvent, CargoFile, Package,
    Placement,
};
use sloper_extension::component::{check_component, extract_manifest, stamp_manifest, ComponentError, Finding};
use sloper_extension::envelope::Rejection;
use sloper_extension::icon::{check_icon, icon_frames, PngHeader};
use sloper_extension::json::{Json, Number};
use sloper_extension::paths::relative_to;
use sloper_extension::provenance::{
    package_revision, resolve_revision, sdk_revision, Evidence, Found, Origin, ProvenanceError,
};
use sloper_extension::redact::redact;
use sloper_extension::scaffold::scaffold;
use sloper_extension::tool::{validate_bytes, Error, Validation, ValidationError};

const HEADER: &[u8] = b"\0asm\x0d\0\x01\0";
const REVISION: &str = "1234567890abcdef1234567890abcdef12345678";
const EXPLICIT: &str = "abcdef1234567890abcdef1234567890abcdef12";

fn from_value(value: &Value) -> Json {
    match value {
        Value::Null => Json::Null,
        Value::Bool(flag) => Json::Bool(*flag),
        Value::Number(number) => Json::Number(match (number.as_u64(), number.as_i64()) {
            (Some(unsigned), _) => Number::Unsigned(unsigned),
            (None, Some(negative)) => Number::Negative(negative),
            _ => Number::Decimal(number.to_string()),
        }),
        Value::String(text) => Json::Text(text.clone()),
        Value::Array(items) => Json::Array(items.iter().map(from_value).collect()),
        Value::Object(members) => {
            Json::Object(members.iter().map(|(name, value)| (name.clone(), from_value(value))).collect())
        },
    }
}

fn to_value(json: &Json) -> Value {
    match json {
        Json::Null => Value::Null,
        Json::Bool(flag) => Value::from(*flag),
        Json::Number(Number::Unsigned(number)) => Value::from(*number),
        Json::Number(Number::Negative(number)) => Value::from(*number),
        Json::Number(Number::Decimal(text)) => serde_json::from_str(text).unwrap(),
        Json::Text(text) => Value::from(text.as_str()),
        Json::Array(items) => Value::Array(items.iter().map(to_value).collect()),
        Json::Object(members) => {
            Value::Object(members.iter().map(|(name, value)| (name.clone(), to_value(value))).collect())
        },
    }
}

fn json(text: &str) -> Json {
    from_value(&serde_json::from_str(text).unwrap())
}

fn words<T>(result: Result<T, Error>) -> String {
    match result {
        Ok(_) => panic!("the input is refused"),
        Err(error) => error.message(),
    }
}

fn checkout() -> Evidence {
    Evidence {
        variable: None,
        release: Found::Missing,
        package: Found::Missing,
        directory: Some("sloper-extension-cli".to_owned()),
        parent: Some("crates".to_owned()),
        marker: Found::Read(()),
        head: Err(ProvenanceError::GitFailed),
    }
}

fn packaged(metadata: &str) -> Evidence {
    Evidence {
        package: Found::Read(serde_json::from_str::<Value>(metadata).ok().as_ref().map(from_value)),
        ..checkout()
    }
}

fn resolved(evidence: &Evidence) -> Option<String> {
    resolve_revision(evidence).unwrap()
}

fn metadata(dirty: &str) -> String {
    format!(r#"{{"git":{{"sha1":"{REVISION}","dirty":{dirty}}}}}"#)
}

#[test]
fn package_archive_uses_cargo_revision_without_git() {
    let package = packaged(&format!(
        r#"{{"git":{{"sha1":"{REVISION}"}},"path_in_vcs":"crates/sloper-extension-cli"}}"#
    ));
    assert_eq!(resolved(&package).as_deref(), Some(REVISION));
}

#[test]
fn stamped_package_keeps_original_source_revision() {
    let mut package = packaged(&metadata("true"));
    package.release = Found::Read(format!("{REVISION}\n"));
    assert_eq!(resolved(&package).as_deref(), Some(REVISION));
    package.variable = Some(Some(EXPLICIT.to_owned()));
    assert_eq!(resolved(&package).as_deref(), Some(EXPLICIT));
}

#[test]
fn malformed_release_revision_is_rejected() {
    for revision in ["", "main", "123456789abc", "not a commit"] {
        let package = Evidence { release: Found::Read(revision.to_owned()), ..checkout() };
        assert_eq!(
            resolve_revision(&package),
            Err(ProvenanceError::InvalidRevision(Origin::ReleaseFile))
        );
    }
    assert_eq!(
        ProvenanceError::InvalidRevision(Origin::ReleaseFile).message(),
        "release-revision must contain a full 40-character hexadecimal Git revision"
    );
}

#[test]
fn dirty_package_has_no_default_or_checkout_fallback() {
    assert_eq!(resolved(&packaged(&metadata("true"))), None);
}

#[test]
fn explicit_revision_overrides_dirty_package_provenance() {
    let package = Evidence { variable: Some(Some(EXPLICIT.to_owned())), ..packaged(&metadata("true")) };
    assert_eq!(resolved(&package).as_deref(), Some(EXPLICIT));
}

#[test]
fn package_dirty_flag_requires_a_boolean() {
    for dirty in [r#""true""#, "1", "null"] {
        assert_eq!(
            resolve_revision(&packaged(&metadata(dirty))),
            Err(ProvenanceError::InvalidDirtyFlag)
        );
    }
    assert_eq!(package_revision(&json(&metadata("false"))).unwrap().as_deref(), Some(REVISION));
}

#[test]
fn explicit_revision_overrides_even_malformed_package_metadata() {
    let package = Evidence { variable: Some(Some(EXPLICIT.to_owned())), ..packaged("not JSON") };
    assert_eq!(resolved(&package).as_deref(), Some(EXPLICIT));
}

#[test]
fn invalid_explicit_revision_is_not_replaced_by_other_provenance() {
    for explicit in [
        "",
        "main",
        "1234567",
        "1234567890abcdef1234567890abcdef1234567g",
        "1234567890abcdef1234567890abcdef12345678\n",
    ] {
        let package = Evidence { variable: Some(Some(explicit.to_owned())), ..packaged(&metadata("false")) };
        assert!(resolve_revision(&package).is_err());
    }
    let package = Evidence { variable: Some(None), ..packaged(&metadata("false")) };
    assert_eq!(
        resolve_revision(&package),
        Err(ProvenanceError::InvalidRevision(Origin::Variable))
    );
}

#[test]
fn malformed_package_metadata_is_reported_without_git_fallback() {
    for metadata in [
        "not JSON",
        "{}",
        r#"{"git":{"sha1":3}}"#,
        r#"{"git":{"sha1":"main"}}"#,
        r#"{"git":{"sha1":"main","dirty":true}}"#,
    ] {
        let package = Evidence { head: Ok(REVISION.to_owned()), ..packaged(metadata) };
        assert!(resolve_revision(&package).is_err());
    }
    assert_eq!(resolve_revision(&packaged("not JSON")), Err(ProvenanceError::Metadata));
}

#[test]
fn unreadable_package_metadata_is_reported() {
    let package = Evidence { package: Found::Unreadable, ..checkout() };
    assert_eq!(resolve_revision(&package), Err(ProvenanceError::Io));
    let release = Evidence { release: Found::Unreadable, ..checkout() };
    assert_eq!(resolve_revision(&release), Err(ProvenanceError::Io));
}

#[test]
fn checkout_requires_its_own_git_marker() {
    let unmarked = Evidence { marker: Found::Missing, head: Ok(REVISION.to_owned()), ..checkout() };
    assert_eq!(resolved(&unmarked), None);
    let marked = Evidence { head: Ok(REVISION.to_owned()), ..checkout() };
    assert_eq!(resolved(&marked).as_deref(), Some(REVISION));
}

#[test]
fn package_directory_cannot_borrow_unrelated_repository_head() {
    let elsewhere = Evidence {
        directory: Some("sloper-extension-cli-0.0.1".to_owned()),
        parent: Some("packages".to_owned()),
        head: Ok(REVISION.to_owned()),
        ..checkout()
    };
    assert_eq!(resolved(&elsewhere), None);
}

#[test]
fn checkout_git_failures_are_reported() {
    assert_eq!(resolve_revision(&checkout()), Err(ProvenanceError::GitFailed));
}

#[test]
fn git_revision_is_validated_before_embedding() {
    let branch = Evidence { head: Ok("main".to_owned()), ..checkout() };
    assert!(resolve_revision(&branch).is_err());
    let capital = Evidence { head: Ok(REVISION.to_uppercase()), ..checkout() };
    assert_eq!(resolved(&capital).as_deref(), Some(REVISION));
    assert_eq!(sdk_revision(&resolve_revision(&capital)), Some(REVISION));
    assert_eq!(sdk_revision(&resolve_revision(&branch)), None);
}

#[test]
fn invalid_component_is_a_validation_failure_without_a_manifest() {
    let error = check_validated(Err(ComponentError::Rejected(Rejection::HeaderExpected))).err().unwrap();
    assert!(error.message().contains("validation"), "error={}", error.message());
    let report = to_value(&error.command_error());
    assert_eq!(report["details"]["check"]["valid"], false);
    assert_eq!(report["details"]["check"]["manifest"], Value::Null);
    assert_ne!(report["details"]["findings"], serde_json::from_str::<Value>("[]").unwrap());
}

#[test]
fn a_component_that_its_sources_no_longer_build_is_stale() {
    let checked = check_validated(Ok(json(r#"{"name":"a.b"}"#))).ok().unwrap();
    assert!(checked.valid);
    let current = check_current(b"same", b"same", checked).ok().unwrap();
    let error = check_current(b"old", b"new", current).err().unwrap();
    let report = to_value(&error.command_error());
    assert_eq!(report["details"]["findings"][0]["code"], "EXTENSION_BUILD_STALE");
    assert_eq!(report["details"]["check"]["manifest"]["name"], "a.b");
    assert_eq!(report["exit"], 3);
}

fn artifact_event(types: &[&str], files: &[(&str, Option<&str>)], package_id: Option<&str>) -> CargoEvent {
    CargoEvent {
        package_id: package_id.map(str::to_owned),
        reason: Some("compiler-artifact".to_owned()),
        rendered: None,
        crate_types: Some(types.iter().map(|kind| kind.to_string()).collect()),
        filenames: Some(
            files
                .iter()
                .map(|(path, extension)| CargoFile {
                    path: path.to_string(),
                    extension: extension.map(str::to_owned),
                })
                .collect(),
        ),
    }
}

#[test]
fn cargo_metadata_borrows_plain_fields_and_retains_escaped_diagnostics() {
    let id = "registry+https://example.test#library@1.0.0";
    let event = artifact_event(
        &["cdylib"],
        &[("target/component.wasm", Some("wasm")), ("escaped\\component.wasm", Some("wasm"))],
        Some(id),
    );
    assert_eq!(diagnostic(&event), None);
    let mut artifacts: Vec<Artifact> = Vec::new();
    assert!(collect_artifacts(&event, &mut artifacts).is_ok());
    assert_eq!(
        artifacts.iter().map(|artifact| artifact.path.as_str()).collect::<Vec<_>>(),
        ["target/component.wasm", "escaped\\component.wasm"]
    );
    assert!(artifacts.iter().all(|artifact| artifact.package_id == id));
    let message = CargoEvent {
        package_id: None,
        reason: Some("compiler-message".to_owned()),
        rendered: Some("error:\nfailed".to_owned()),
        crate_types: None,
        filenames: None,
    };
    assert_eq!(diagnostic(&message), Some("error:\nfailed"));
    let finished = CargoEvent { reason: Some("build-finished".to_owned()), rendered: None, ..message };
    assert_eq!(diagnostic(&finished), None);
    assert!(collect_artifacts(&finished, &mut artifacts).is_ok());
    assert_eq!(artifacts.len(), 2);
}

#[test]
fn a_build_makes_exactly_one_component() {
    let mut artifacts: Vec<Artifact> = Vec::new();
    let library = artifact_event(&["rlib"], &[("a.wasm", Some("wasm"))], Some("a"));
    assert!(collect_artifacts(&library, &mut artifacts).is_ok());
    assert!(artifacts.is_empty());
    let component = artifact_event(&["rlib", "cdylib"], &[("a.d", Some("d")), ("a.WASM", Some("WASM"))], Some("a"));
    assert!(collect_artifacts(&component, &mut artifacts).is_ok());
    assert_eq!(artifacts.len(), 1);
    let unnamed = artifact_event(&["cdylib"], &[], None);
    assert_eq!(words(collect_artifacts(&unnamed, &mut artifacts)), "Cargo artifact has no package identity");
    assert_eq!(
        words(built_artifact(false, Vec::new())),
        "extension Cargo build failed; see standard error"
    );
    assert_eq!(
        words(built_artifact(true, Vec::new())),
        "extension build must produce exactly one Cargo library component"
    );
    assert_eq!(built_artifact(true, artifacts).ok().unwrap().path, "a.WASM");
}

#[test]
fn cargo_never_inherits_publishing_or_provider_bearers() {
    for name in ["SLOPER_API_TOKEN", "SLOPER_TOKEN_GMAIL", "SLOPER_TOKEN_CUSTOM"] {
        assert!(strips_credential(name), "{name}");
    }
    for name in ["PATH", "SLOPER_TOKEN", "SLOPER_API_TOKENS", "X_SLOPER_TOKEN_GMAIL"] {
        assert!(!strips_credential(name), "{name}");
    }
}

fn package(directory: &str, license_file: Option<&str>) -> Package {
    Package {
        id: "extension".to_owned(),
        license_file: license_file.map(str::to_owned),
        directory: Some(directory.to_owned()),
    }
}

#[test]
fn inherited_license_and_authored_report_preserve_exact_bytes() {
    let declared = package("root/extension", Some("../LICENSE"));
    let source = license_source(&declared).ok().unwrap();
    assert_eq!((source.directory, source.path, source.required), ("root/extension", "../LICENSE", true));
    let (license, notices) =
        place_licenses(Some(b"workspace terms\r\n".to_vec()), Some(b"upstream attribution\r\n".to_vec()));
    assert!(matches!(license, Placement::Write("LICENSE", bytes) if bytes == b"workspace terms\r\n"));
    assert!(matches!(notices, Placement::Write("ThirdPartyNotices.txt", bytes) if bytes == b"upstream attribution\r\n"));
}

#[test]
fn local_license_is_used_without_inheriting_unrelated_parent_terms() {
    let plain = package("root/extension", None);
    let source = license_source(&plain).ok().unwrap();
    assert_eq!((source.directory, source.path, source.required), ("root/extension", "LICENSE", false));
    assert!(matches!(place_licenses(None, None).0, Placement::Remove("LICENSE")));
}

#[test]
fn rebuilding_removes_report_when_author_removes_it() {
    assert!(matches!(
        place_licenses(None, Some(b"previous dependencies".to_vec())).1,
        Placement::Write("ThirdPartyNotices.txt", _)
    ));
    assert!(matches!(place_licenses(None, None).1, Placement::Remove("ThirdPartyNotices.txt")));
}

#[test]
fn packages_are_found_by_their_identity() {
    let packages = vec![package("a", None), Package { id: "other".to_owned(), ..package("b", None) }];
    assert_eq!(built_package(&packages, "other").ok().unwrap(), 1);
    assert_eq!(words(built_package(&packages, "third")), "Built extension is absent from Cargo metadata");
    let rootless = Package { directory: None, ..package("a", None) };
    assert_eq!(words(license_source(&rootless)), "Cargo package manifest has no directory");
}

fn png(width: u32, height: u32) -> Vec<u8> {
    let mut bytes = Vec::new();
    {
        let encoder = png::Encoder::new(&mut bytes, width, height);
        let mut writer = encoder.write_header().unwrap();
        writer.write_image_data(&vec![0; (width * height) as usize]).unwrap();
    }
    bytes
}

#[test]
fn icons_require_square_bounded_complete_png_bytes() {
    let valid = png(32, 32);
    assert!(check_icon("icon.png", &valid).is_ok());
    assert!(check_icon("icon.png", &png(32, 16)).is_err());
    assert!(check_icon("icon.png", &png(513, 513)).is_err());
    assert!(check_icon("icon.png", &valid[..valid.len() - 5]).is_err());
    assert!(check_icon("icon.png", &png(512, 512)).is_ok());
    assert!(matches!(check_icon("icon.png", b"no picture"), Err(Error::Png)));
    assert_eq!(
        words(check_icon("icon.png", &vec![0; 256 * 1024 + 1])),
        "icon.png exceeds its 262144-byte limit"
    );
}

#[test]
fn icons_are_squares_with_their_frames() {
    let header = |width, height, animation| PngHeader { width, height, animation };
    assert_eq!(icon_frames(header(512, 512, None)).ok(), Some(1));
    assert_eq!(icon_frames(header(1, 1, Some(7))).ok(), Some(7));
    for (width, height) in [(0, 0), (513, 513), (32, 16)] {
        assert_eq!(
            words(icon_frames(header(width, height, None))),
            "icon must be a square PNG between 1 and 512 pixels per side"
        );
    }
}

#[test]
fn scaffold_has_complete_example_and_refuses_existing_targets() {
    let files = scaffold("acme.records", REVISION, "terms\n", false).ok().unwrap();
    let text = |path: &str| files.iter().find(|file| file.path == path).map(|file| file.text.as_str());
    assert!(text("src/lib.rs").unwrap().contains("extension! { name: \"acme.records\", actions: [normalize] }"));
    assert!(text("records.jsonl").is_some());
    assert_eq!(text("LICENSE"), Some("terms\n"));
    assert!(text("NOTICE").is_none());
    let manifest = text("Cargo.toml").unwrap();
    assert!(manifest.contains("name = \"acme-records\"\n"));
    assert!(manifest.contains("version = \"0.0.1\"\n"));
    assert!(manifest.contains(REVISION));
    assert!(manifest.contains("https://github.com/sloper-ai/extension-sdk"));
    assert!(scaffold("acme.invalid", "main", "", false).is_err());
    assert_eq!(
        text(".cargo/config.toml"),
        Some("[target.wasm32-wasip2]\nrustflags = [\"--cfg\", \"tokio_unstable\"]\n")
    );
    assert!(scaffold("acme.records", REVISION, "", true).is_err());
    assert!(scaffold("acme..records", REVISION, "", false).is_err());
    assert!(scaffold("../records", REVISION, "", false).is_err());
}

#[test]
fn invalid_component_returns_findings_and_no_manifest() {
    let verdict = Err(ComponentError::Rejected(Rejection::HeaderExpected));
    let result = validate_bytes(b"invalid component", verdict).unwrap();
    assert!(!result.valid);
    assert_ne!(result.findings.len(), 0);
    assert!(result.manifest.is_none());
    assert_eq!(validation_exit(&result), 3);
}

#[test]
fn missing_file_is_an_operational_failure_without_its_path() {
    assert_eq!(ValidationError::Read.message(), "component input could not be read");
    assert_eq!(Error::ValidationInput(ValidationError::Read).exit_code(), 10);
}

#[test]
fn accepted_component_preserves_exact_embedded_manifest_bytes() {
    let original = stamp_manifest(HEADER, b"{ \"name\" : \"a.b\" }\n", Ok(())).unwrap();
    let manifest = extract_manifest(&original).unwrap();
    let result = validate_bytes(&original, Ok(())).unwrap();
    assert!(result.valid);
    assert_eq!(result.findings.len(), 0);
    assert_eq!(result.manifest.as_ref().unwrap().as_bytes(), manifest);
    assert_eq!(validation_exit(&result), 0);
    assert!(matches!(validate_bytes(HEADER, Ok(())), Err(ValidationError::Manifest(_))));
    let unreadable = stamp_manifest(HEADER, b"\xff", Ok(())).unwrap();
    assert!(matches!(validate_bytes(&unreadable, Ok(())), Err(ValidationError::Encoding)));
}

#[test]
fn oversized_components_are_refused_before_they_are_read() {
    let result: Validation = validate_bytes(&vec![0; 64 * 1024 * 1024 + 1], Ok(())).unwrap();
    assert!(!result.valid);
    assert_eq!(result.findings[0].code, "MANIFEST_TOO_LARGE");
    assert_eq!(result.findings[0].message, "Component exceeds 64 MiB.");
}

#[test]
fn arguments_reject_duplicate_json_keys_and_fixture_keys() {
    assert!(fixtures(vec![("a".into(), "a.jsonl".into()), ("a".into(), "b.jsonl".into())]).is_err());
    assert_eq!(fixture("a=b=c"), Ok(("a".to_owned(), "b=c".to_owned())));
    for malformed in ["a", "=a", "a="] {
        assert!(fixture(malformed).is_err(), "{malformed}");
    }
    let files = fixtures(vec![("b".into(), "y".into()), ("a".into(), "x".into())]).unwrap();
    assert_eq!(files.entries, [("a".to_owned(), "x".to_owned()), ("b".to_owned(), "y".to_owned())]);
}

#[test]
fn run_options_become_arguments() {
    let options = |path: Option<&str>| RunOptions {
        directory: "dir".to_owned(),
        action: "pull".to_owned(),
        out: "run".to_owned(),
        parameters: json("{}"),
        configuration: json(r#"{"a":1}"#),
        sources: vec![("receipt".to_owned(), path.map(str::to_owned))],
        resources: Vec::new(),
    };
    let arguments = run_arguments(options(Some("a.pdf"))).ok().unwrap();
    assert_eq!(
        to_value(&Json::Object(arguments)).to_string(),
        r#"{"directory":"dir","action":"pull","out":"run","parameters":{},"configuration":{"a":1},"source":["receipt=a.pdf"],"resource":[]}"#
    );
    assert!(matches!(run_arguments(options(None)), Err(Error::Usage(_))));
    assert_eq!(
        fixture_arguments(&vec![("a".to_owned(), Some("b".to_owned()))]).ok().unwrap()[0].as_text(),
        Some("a=b")
    );
}

#[test]
fn a_run_that_did_not_succeed_fails_its_command() {
    let run = || json(r#"{"out":"run"}"#);
    assert!(run_outcome(&json(r#"{"state":"SUCCEEDED"}"#), run()).is_ok());
    assert!(run_outcome(&json("{}"), run()).is_ok());
    let report = to_value(&run_outcome(&json(r#"{"state":"FAILED"}"#), run()).unwrap_err());
    assert_eq!(report["code"], "EXTENSION_FAILED");
    assert_eq!(report["details"]["run"]["out"], "run");
}

#[test]
fn results_are_shown_as_json_or_for_people() {
    let shown = show_result(Ok(json(r#"{"a":[1]}"#)), true);
    assert_eq!(shown.output.as_deref(), Some(r#"{"a":[1]}"#));
    assert_eq!((shown.diagnostic, shown.exit), (None, 0));
    let shown = show_result(Ok(json(r#"{"a":[1]}"#)), false);
    assert_eq!(shown.output.as_deref(), Some("{\n  \"a\": [\n    1\n  ]\n}"));
    let shown = show_result(Err(usage("wrong")), true);
    assert_eq!(
        shown.output.as_deref(),
        Some(r#"{"error":{"code":"USAGE","exit":2,"message":"wrong","retryable":false,"details":{}}}"#)
    );
    assert_eq!(shown.exit, 2);
    let shown = show_result(Err(usage("wrong")), false);
    assert_eq!((shown.output, shown.diagnostic.as_deref(), shown.exit), (None, Some("wrong"), 2));
}

#[test]
fn media_types_and_revisions_are_told_apart() {
    assert!(json_media(Some("Application/JSON; charset=utf-8")));
    assert!(!json_media(Some("text/plain")));
    assert!(!json_media(None));
    assert_eq!(pinned_revision(Some("asked"), Some("built")).ok(), Some("asked"));
    assert_eq!(pinned_revision(None, Some("built")).ok(), Some("built"));
    assert!(pinned_revision(None, None).is_err());
}

#[test]
fn repeated_marker_tokens_cannot_expand_before_safe_omission() {
    let tokens = vec!["e".to_owned(); 64];
    assert_eq!(redact("secret", &tokens), "");
    assert_eq!(redact("xyz", &tokens), "xyz");
}

#[test]
fn relative_paths_climb_from_the_base_and_descend_to_the_target() {
    let parts = |path: &str| path.split(' ').map(str::to_owned).collect::<Vec<_>>();
    assert_eq!(
        relative_to(&parts("/ a wit world.wit"), &parts("/ a crates host")),
        Some(parts(".. .. wit world.wit"))
    );
    assert_eq!(relative_to(&parts("/ a"), &parts("/ a")), Some(Vec::new()));
    assert_eq!(relative_to(&parts("C: a"), &parts("D: a")), None);
}

const CORE: &[u8] = b"\0asm\x01\0\0\0";

fn section(id: u8, contents: &[u8]) -> Vec<u8> {
    let mut bytes = vec![id, contents.len() as u8 & 0x7f | 0x80, (contents.len() >> 7) as u8];
    bytes.extend_from_slice(contents);
    bytes
}

fn declared(parts: &[&str]) -> Vec<u8> {
    let mut module = CORE.to_vec();
    for part in parts {
        let mut contents = vec![12];
        contents.extend_from_slice(b"sloper:parts");
        contents.extend_from_slice(part.as_bytes());
        module.extend(section(0, &contents));
    }
    let mut component = HEADER.to_vec();
    component.extend(section(1, &module));
    component
}

fn decode(part: &[u8]) -> Result<Vec<Json>, Vec<Finding>> {
    serde_json::from_slice::<Value>(part).map(|value| vec![from_value(&value)]).map_err(|_| Vec::new())
}

fn encode(text: &String) -> Result<Vec<u8>, Vec<Finding>> {
    Ok(text.clone().into_bytes())
}

fn accept(manifest: &Vec<u8>) -> Result<(), Vec<Finding>> {
    if manifest.is_empty() {
        Err(Vec::new())
    } else {
        Ok(())
    }
}

#[test]
fn a_fresh_build_carries_its_manifest_and_is_current() {
    let built = declared(&[
        r#"{"kind":"extension","name":"acme.demo","version":"1.0.0","actions":["run"]}"#,
        r#"{"kind":"action","name":"run","resources":{"items":["read"]}}"#,
        r#"{"kind":"resource","name":"items","schema":{}}"#,
    ]);
    let compiled = stamp_artifact(&built, "acme".to_owned(), &decode, &encode, &accept).ok().unwrap();
    assert_eq!(compiled.package_id, "acme");
    assert_eq!(
        std::str::from_utf8(extract_manifest(&compiled.component).unwrap()).unwrap(),
        r#"{"name":"acme.demo","version":"1.0.0","actions":{"run":{"resources":{"items":["read"]}}},"resources":{"items":{"schema":{},"capabilities":["read"]}},"connections":{}}"#
    );
    let again = assemble_component(&compiled.component, &decode, &encode);
    assert!(check_component(&compiled.component, Ok(()), again).is_ok());
    let judge = |validated, assembled| judge_component(&compiled.component, validated, assembled);
    let again = assemble_component(&compiled.component, &decode, &encode);
    let judged = judge(Ok(Json::Bool(true)), again).ok().unwrap();
    assert!(judged.valid && judged.findings.is_empty() && matches!(judged.manifest, Json::Bool(true)));
    let other = judge(Ok(Json::Null), Ok(b"other".to_vec()));
    assert!(matches!(other, Err(Error::Component(ComponentError::Rejected(Rejection::ManifestMismatch)))));
    let invalid = judge(Err(ComponentError::Rejected(Rejection::HeaderExpected)), Ok(b"other".to_vec()));
    assert!(matches!(invalid, Err(Error::Component(ComponentError::Rejected(Rejection::HeaderExpected)))));
    let twice = stamp_artifact(&compiled.component, "acme".to_owned(), &decode, &encode, &accept);
    assert!(matches!(twice, Err(Error::Component(ComponentError::Rejected(Rejection::AlreadyStamped)))));
    let undeclared = stamp_artifact(HEADER, "acme".to_owned(), &decode, &encode, &accept);
    assert!(matches!(undeclared, Err(Error::Component(ComponentError::Rejected(Rejection::ExtensionAbsent)))));
    let malformed = stamp_artifact(&declared(&["{"]), "acme".to_owned(), &decode, &encode, &accept);
    assert!(matches!(malformed, Err(Error::Component(ComponentError::Manifest(_)))));
    let refuse = |_: &Vec<u8>| Err(Vec::new());
    let refused = stamp_artifact(&built, "acme".to_owned(), &decode, &encode, &refuse);
    assert!(matches!(refused, Err(Error::Component(ComponentError::Manifest(_)))));
}

#[test]
fn redacted_text_stays_as_it_is() {
    let tokens = vec!["secret".to_owned(), "key-1".to_owned()];
    let once = redact("a secret and key-1 and secret", &tokens);
    assert_eq!(once, "a [redacted] and [redacted] and [redacted]");
    assert_eq!(redact(&once, &tokens), once);
}

//! Components: their envelopes, their build declarations and their world.

use serde_json::Value;
use sloper_extension::assembly::{assemble_parts, Assembled, Fragment};
use sloper_extension::binary::{shape, Shape};
use sloper_extension::compile::{check_extension, judge_extension, stamp_artifact};
use sloper_extension::component::{
    check_component, extract_manifest, extract_parts, stamp_manifest, walk_parts, ComponentError, Finding,
    MANIFEST_SECTION, MAX_MANIFEST_BYTES,
};
use sloper_extension::envelope::{encode_leb, leb_width, unsigned_leb, Sections};
use sloper_extension::json::{Json, Number};
use sloper_extension::primitives::SemanticVersion;
use sloper_extension::tool::report_extension;
use sloper_extension::world::{
    compatible_wasi_source, judge_types, judge_world, match_import, match_import_names, validate_component,
    validate_exports, validate_extension, write_release, ComponentWorld, Export, HostWorld, MAX_CHAIN,
};
use wit_component::{dummy_module, embed_component_metadata, ComponentEncoder, StringEncoding};
use wit_parser::{LiftLowerAbi, ManglingAndAbi, Resolve, UnresolvedPackageGroup, WorldId};

const HEADER: &[u8] = b"\0asm\x0d\0\x01\0";
const CORE_HEADER: &[u8] = b"\0asm\x01\0\0\0";
const EXPORT_MESSAGE: &str = "Component must export exactly the Sloper action interface.";
const MANIFEST: &[u8] = br#"{"name":"acme.demo","version":"1.0.0","description":"Demo","actions":{"run":{}}}"#;
const EXTENSION: &[u8] =
    br#"{"kind":"extension","name":"acme.demo","version":"1.0.0","description":"Demo","actions":["run"]}"#;
const ACTION: &[u8] = br#"{"kind":"action","name":"run"}"#;
const PACKAGES: &[(&str, &str)] = &[
    (
        "sloper-api.wit",
        "package sloper:api@0.1.0;\ninterface types {\n  record request { action: string }\n  variant failure { internal(string) }\n}\ninterface log {\n  write: func(message: string);\n}\n",
    ),
    (
        "random.wit",
        "package wasi:random@0.2.12;\n@since(version = 0.2.0)\ninterface random {\n  @since(version = 0.2.0)\n  get-random-u64: func() -> u64;\n}\n",
    ),
    (
        "cli.wit",
        "package wasi:cli@0.2.12;\n@since(version = 0.2.0)\nworld imports {\n  @since(version = 0.2.0)\n  import wasi:random/random@0.2.12;\n}\n",
    ),
    (
        "http.wit",
        "package wasi:http@0.2.12;\n@since(version = 0.2.0)\ninterface types {\n  @since(version = 0.2.0)\n  attempts: func() -> u32;\n}\n@since(version = 0.2.0)\ninterface outgoing-handler {\n  @since(version = 0.2.0)\n  handle: func(url: string);\n}\n",
    ),
];
const WORLD: &str = "package sloper:extension@0.1.0;\ninterface action {\n  use sloper:api/types@0.1.0.{request, failure};\n  run: async func(request: request) -> result<_, failure>;\n}\nworld extension {\n  include wasi:cli/imports@0.2.12;\n  import wasi:http/types@0.2.12;\n  import wasi:http/outgoing-handler@0.2.12;\n  import sloper:api/log@0.1.0;\n  export action;\n}\n";

fn host() -> HostWorld {
    HostWorld {
        packages: PACKAGES.iter().map(|(name, text)| (name.to_string(), text.to_string())).collect(),
        source: WORLD.to_owned(),
    }
}

fn validate(component: &[u8]) -> Result<(), ComponentError> {
    validate_component(component, Ok(()), &host())
}

fn append_section(bytes: &[u8], id: u8, contents: &[u8]) -> Vec<u8> {
    let mut result = bytes.to_vec();
    result.push(id);
    encode_leb(contents.len(), &mut result);
    result.extend_from_slice(contents);
    result
}

fn custom(name: &[u8], contents: &[u8]) -> Vec<u8> {
    let mut result = Vec::new();
    encode_leb(name.len(), &mut result);
    result.extend_from_slice(name);
    result.extend_from_slice(contents);
    result
}

fn finding(code: &str) -> Finding {
    Finding { code: code.to_owned(), location: String::new(), message: "Refused.".to_owned() }
}

fn assert_code<T>(result: Result<T, ComponentError>, code: &str) {
    match result {
        Ok(_) => panic!("the deliberately invalid component must be rejected with {code}"),
        Err(error) => assert_eq!(error.findings()[0].code, code, "findings={:?}", error.findings()),
    }
}

fn to_json(value: &Value) -> Json {
    match value {
        Value::Null => Json::Null,
        Value::Bool(flag) => Json::Bool(*flag),
        Value::Number(number) => match (number.as_u64(), number.as_i64()) {
            (Some(number), _) => Json::Number(Number::Unsigned(number)),
            (None, Some(number)) => Json::Number(Number::Negative(number)),
            _ => Json::Number(Number::Decimal(number.to_string())),
        },
        Value::String(text) => Json::Text(text.clone()),
        Value::Array(items) => Json::Array(items.iter().map(to_json).collect()),
        Value::Object(members) => {
            Json::Object(members.iter().map(|(name, value)| (name.clone(), to_json(value))).collect())
        }
    }
}

fn to_value(json: &Json) -> Value {
    match json {
        Json::Null => Value::Null,
        Json::Bool(flag) => Value::from(*flag),
        Json::Number(Number::Unsigned(number)) => Value::from(*number),
        Json::Number(Number::Negative(number)) => Value::from(*number),
        Json::Number(Number::Decimal(text)) => serde_json::from_str(text).expect("a number"),
        Json::Text(text) => Value::from(text.as_str()),
        Json::Array(items) => Value::Array(items.iter().map(to_value).collect()),
        Json::Object(members) => {
            Value::Object(members.iter().map(|(name, value)| (name.clone(), to_value(value))).collect())
        }
    }
}

fn duplicate_keys(text: &str) -> bool {
    text.matches("\"name\":").count() > 1 && text.matches('{').count() == 1
}

/// The declarations of a section: a sequence of JSON values without duplicate keys.
fn fragment(bytes: &[u8]) -> Fragment {
    let mut values = Vec::new();
    let refused = match std::str::from_utf8(bytes) {
        Err(_) => true,
        Ok(text) => {
            let mut refused = duplicate_keys(text);
            for value in serde_json::Deserializer::from_str(text).into_iter::<Value>() {
                match value {
                    Ok(value) => values.push(to_json(&value)),
                    Err(_) => refused = true,
                }
            }
            refused
        }
    };
    Fragment {
        size: bytes.len(),
        values: if refused { Err(vec![finding("EXTENSION_PARTS_INVALID")]) } else { Ok(values) },
    }
}

fn assemble(parts: &[&[u8]]) -> Result<Assembled, ComponentError> {
    assemble_parts(parts.iter().map(|part| fragment(part)).collect())
}

fn document(parts: &[&[u8]]) -> Value {
    match assemble(parts) {
        Ok(assembled) => to_value(&assembled.document()),
        Err(error) => panic!("declarations assemble: {:?}", error.findings()),
    }
}

fn rewrite_wit(text: &str, replacements: &[(&str, &str)]) -> String {
    replacements.iter().fold(
        text.lines()
            .filter(|line| !line.trim_start().starts_with("@since(") && !line.trim_start().starts_with("@deprecated("))
            .collect::<Vec<_>>()
            .join("\n"),
        |text, (from, to)| text.replace(from, to),
    )
}

fn parse(name: &str, text: &str) -> UnresolvedPackageGroup {
    UnresolvedPackageGroup::parse(name, text).expect("test WIT parses")
}

fn compiled_component(replacements: &[(&str, &str)], fragments: &[&[u8]]) -> Vec<u8> {
    let packages = PACKAGES.iter().map(|(name, text)| parse(name, &rewrite_wit(text, replacements))).collect();
    let root = parse("extension.wit", &rewrite_wit(WORLD, replacements));
    let mut resolve = Resolve::default();
    let package = resolve.push_groups(root, packages).expect("test WIT dependencies resolve");
    let world = resolve.select_world(&[package], Some("extension")).expect("test extension world exists");
    compile_world(&resolve, world, fragments)
}

fn compile_world(resolve: &Resolve, world: WorldId, fragments: &[&[u8]]) -> Vec<u8> {
    let mut module = dummy_module(resolve, world, ManglingAndAbi::Legacy(LiftLowerAbi::AsyncCallback));
    for fragment in fragments {
        module = append_section(&module, 0, &custom(b"sloper:parts", fragment));
    }
    embed_component_metadata(&mut module, resolve, world, StringEncoding::UTF8, false)
        .expect("metadata describes the generated core module");
    ComponentEncoder::default()
        .module(&module)
        .expect("core module metadata is valid")
        .validate(true)
        .encode()
        .expect("test executable component encodes")
}

fn stamp(component: &[u8], manifest: &[u8]) -> Vec<u8> {
    stamp_manifest(component, manifest, Ok(())).expect("component stamps")
}

fn trapping_component() -> Vec<u8> {
    let component = compiled_component(&[], &[]);
    let mut modules = 0;
    let mut sections = Sections::new(&component);
    while let Ok(Some(section)) = sections.next() {
        if section.id == 1 {
            modules += 1;
        }
    }
    // A module whose start function is `unreachable`.
    let trap = append_section(CORE_HEADER, 1, &[1, 0x60, 0, 0]);
    let trap = append_section(&trap, 3, &[1, 0]);
    let trap = append_section(&trap, 8, &[0]);
    let trap = append_section(&trap, 10, &[1, 3, 0, 0, 0x0b]);
    let component = append_section(&component, 1, &trap);
    let mut instance = vec![1, 0];
    encode_leb(modules, &mut instance);
    instance.push(0);
    let component = append_section(&component, 2, &instance);
    stamp(&component, MANIFEST)
}

#[test]
fn extraction_preserves_embedded_bytes_and_ignores_nested_manifests() {
    let authored = [b" \n".as_slice(), MANIFEST, b"\n".as_slice()].concat();
    let nested = append_section(CORE_HEADER, 0, &custom(b"sloper:manifest", b"nested"));
    let component = append_section(HEADER, 1, &nested);
    assert_code(extract_manifest(&component), "MANIFEST_ABSENT");
    let stamped = stamp(&component, &authored);
    assert_eq!(extract_manifest(&stamped).expect("top-level document exists"), authored);
    assert_eq!(&stamped[..component.len()], component);
    assert_code(stamp_manifest(&stamped, &authored, Ok(())), "EXTENSION_ALREADY_STAMPED");
}

#[test]
fn extraction_rejects_duplicate_manifest_even_when_bytes_match() {
    let section = custom(b"sloper:manifest", MANIFEST);
    let component = append_section(&append_section(HEADER, 0, &section), 0, &section);
    assert_code(extract_manifest(&component), "MANIFEST_DUPLICATED");
}

#[test]
fn extraction_rejects_bad_headers_truncated_and_overflowing_lengths() {
    for component in [
        b"".as_slice(),
        b"\0asm\x0d\0\x01".as_slice(),
        CORE_HEADER,
        b"\0asm\x0d\0\x01\x01".as_slice(),
        b"\0asm\x0d\0\x01\0\0".as_slice(),
        b"\0asm\x0d\0\x01\0\0\x80".as_slice(),
        b"\0asm\x0d\0\x01\0\0\x80\x80\x80\x80\x10".as_slice(),
        b"\0asm\x0d\0\x01\0\0\xff\xff\xff\xff\xff".as_slice(),
        b"\0asm\x0d\0\x01\0\0\x02\0".as_slice(),
        b"\0asm\x0d\0\x01\0\0\0".as_slice(),
    ] {
        assert_code(extract_manifest(component), "MANIFEST_MALFORMED");
    }
    for payload in [b"\x80".as_slice(), b"\x80\x80\x80\x80\x10".as_slice(), b"\x02x".as_slice()] {
        let component =
            append_section(&append_section(HEADER, 0, payload), 0, &custom(b"sloper:manifest", MANIFEST));
        assert_code(extract_manifest(&component), "MANIFEST_MALFORMED");
    }
}

#[test]
fn extraction_accepts_legal_nonminimal_leb_and_defers_component_version() {
    let mut component = HEADER.to_vec();
    component.extend_from_slice(&[0, 0x82, 0x80, 0x80, 0x80, 0, 1, b'x']);
    let component = append_section(&component, 0, &custom(b"sloper:manifest", MANIFEST));
    assert_eq!(extract_manifest(&component).expect("nonminimal u32 LEB is legal"), MANIFEST);
    let mut future = component;
    future[4] = 255;
    assert_eq!(extract_manifest(&future).expect("envelope does not own parser version"), MANIFEST);
    assert_code(validate(&future), "MANIFEST_WORLD_INVALID");
}

#[test]
fn extraction_keeps_utf8_cause_and_document_parser_rejects_invalid_payloads() {
    let bad_name = append_section(HEADER, 0, &custom(&[255], b""));
    assert_code(extract_manifest(&bad_name), "MANIFEST_MALFORMED");
    for payload in [b"\xff".as_slice(), br#"{"actions":{},"actions":{}}"#.as_slice()] {
        let component = append_section(HEADER, 0, &custom(b"sloper:manifest", payload));
        assert_code(
            validate_component(&component, Err(vec![finding("MANIFEST_MALFORMED")]), &host()),
            "MANIFEST_MALFORMED",
        );
    }
}

#[test]
fn extraction_enforces_manifest_and_component_inclusive_size_bounds() {
    let exact = vec![b' '; 256 * 1024];
    let component = append_section(HEADER, 0, &custom(b"sloper:manifest", &exact));
    assert_eq!(extract_manifest(&component).expect("exact byte bound is accepted"), exact);
    let excess = append_section(HEADER, 0, &custom(b"sloper:manifest", &vec![b' '; 256 * 1024 + 1]));
    assert_code(extract_manifest(&excess), "MANIFEST_TOO_LARGE");
    let mut oversized = vec![0; 64 * 1024 * 1024 + 1];
    oversized[..8].copy_from_slice(HEADER);
    assert_code(extract_manifest(&oversized), "MANIFEST_TOO_LARGE");
}

#[test]
fn parts_are_extracted_from_core_modules_inside_nested_components() {
    let core = append_section(CORE_HEADER, 0, &custom(b"sloper:parts", EXTENSION));
    let core = append_section(&core, 0, &custom(b"sloper:parts", ACTION));
    let nested = append_section(HEADER, 1, &core);
    let nested = append_section(&nested, 0, &custom(b"sloper:parts", b"ignored"));
    let outer = append_section(HEADER, 4, &nested);
    assert_eq!(extract_parts(&outer).expect("nested core declarations exist"), [EXTENSION, ACTION]);
    assert_eq!(
        extract_parts(&append_section(HEADER, 0, &custom(b"sloper:parts", EXTENSION)))
            .expect("component-level metadata is ignored"),
        Vec::<Vec<u8>>::new()
    );
    assert_code(extract_parts(CORE_HEADER), "EXTENSION_PARTS_INVALID");
    assert_code(extract_parts(&append_section(HEADER, 1, HEADER)), "EXTENSION_PARTS_INVALID");
    assert_code(extract_parts(&append_section(HEADER, 4, CORE_HEADER)), "EXTENSION_PARTS_INVALID");
}

#[test]
fn parts_reject_excessive_nesting_size_and_count() {
    let mut nested = append_section(HEADER, 1, CORE_HEADER);
    for _ in 0..32 {
        nested = append_section(HEADER, 4, &nested);
    }
    assert_code(extract_parts(&nested), "EXTENSION_PARTS_INVALID");
    let core = append_section(CORE_HEADER, 0, &custom(b"sloper:parts", &vec![b' '; 256 * 1024 + 1]));
    assert_code(extract_parts(&append_section(HEADER, 1, &core)), "EXTENSION_PARTS_INVALID");
    let mut core = CORE_HEADER.to_vec();
    for _ in 0..106 {
        core = append_section(&core, 0, &custom(b"sloper:parts", b"{}"));
    }
    assert_code(extract_parts(&append_section(HEADER, 1, &core)), "EXTENSION_PARTS_INVALID");
}

#[test]
fn assembly_is_deterministic_and_preserves_schema_declaration_order() {
    let extension =
        br#"{"kind":"extension","name":"acme.demo","version":"1.0.0","description":"Demo","actions":["zeta","alpha"]}"#
            .as_slice();
    let alpha = br#"{"kind":"action","name":"alpha","parameters":{"type":"object","properties":{"z":{"type":"string"},"a":{"type":"string"}},"required":["z","a"]}}"#.as_slice();
    let zeta = br#"{"kind":"action","name":"zeta"}"#.as_slice();
    let expected = document(&[extension, zeta, alpha]);
    assert_eq!(
        serde_json::to_string(&expected).unwrap(),
        serde_json::to_string(&document(&[alpha, extension, zeta])).unwrap()
    );
    assert_eq!(expected["actions"].as_object().expect("actions object").keys().collect::<Vec<_>>(), ["alpha", "zeta"]);
    assert_eq!(
        expected["actions"]["alpha"]["parameters"]["properties"]
            .as_object()
            .expect("properties object")
            .keys()
            .collect::<Vec<_>>(),
        ["z", "a"]
    );
    assert_eq!(
        expected["actions"]["alpha"]["parameters"]["required"],
        Value::Array(vec![Value::from("z"), Value::from("a")])
    );
}

#[test]
fn assembly_supports_linker_concatenated_json_and_rejects_duplicate_json_keys() {
    let fragments = [EXTENSION, b"\n", ACTION].concat();
    assert_eq!(document(&[&fragments]), document(&[EXTENSION, ACTION]));
    for invalid in [
        b"\xff".as_slice(),
        br#"{"kind":"action","name":"run","name":"other"}"#.as_slice(),
        b"{} trailing".as_slice(),
    ] {
        assert_code(assemble(&[EXTENSION, invalid]), "EXTENSION_PARTS_INVALID");
    }
}

#[test]
fn assembly_checks_both_action_list_directions_and_uniqueness() {
    assert_code(assemble(&[ACTION]), "EXTENSION_PARTS_ABSENT");
    assert_code(assemble(&[EXTENSION, EXTENSION, ACTION]), "EXTENSION_PARTS_DUPLICATED");
    assert_code(assemble(&[EXTENSION, ACTION, ACTION]), "EXTENSION_PARTS_DUPLICATED");
    assert_code(assemble(&[EXTENSION]), "EXTENSION_ACTION_LIST_INVALID");
    for action_list in ["[]", "[\"run\",\"missing\"]", "[\"run\",\"run\"]", "[1]", "\"run\""] {
        let extension =
            String::from_utf8(EXTENSION.to_vec()).expect("fixture is UTF-8").replace("[\"run\"]", action_list);
        assert_code(assemble(&[extension.as_bytes(), ACTION]), "EXTENSION_ACTION_LIST_INVALID");
    }
}

#[test]
fn assembly_derives_capability_union_and_preserves_explicit_invalid_declarations() {
    let action =
        br#"{"kind":"action","name":"run","mode":"background","resources":{"items":["write"]}}"#.as_slice();
    let resource = br#"{"kind":"resource","name":"items","key":"id","schema":{"type":"object","properties":{"id":{"type":"string","maxLength":512}},"required":["id"]}}"#.as_slice();
    let derived = document(&[EXTENSION, action, resource]);
    assert_eq!(derived["resources"]["items"]["capabilities"], Value::Array(vec![Value::from("write")]));
    let explicit = String::from_utf8(resource.to_vec())
        .expect("fixture is UTF-8")
        .replace("\"key\":\"id\"", "\"key\":\"id\",\"capabilities\":[\"read\"]");
    let kept = document(&[EXTENSION, action, explicit.as_bytes()]);
    assert_eq!(kept["resources"]["items"]["capabilities"], Value::Array(vec![Value::from("read")]));
    let shadowed = String::from_utf8(EXTENSION.to_vec())
        .expect("fixture is UTF-8")
        .replace("\"actions\":", "\"resources\":{},\"actions\":");
    assert_code(assemble(&[shadowed.as_bytes(), ACTION]), "EXTENSION_PARTS_INVALID");
}

#[test]
fn complete_async_host_world_and_compatible_wasi_imports_are_validated_statically() {
    for wasi in ["0.2.0", "0.2.11", "0.2.12", "0.2.13", "0.2.999"] {
        let component = compiled_component(&[("0.2.12", wasi)], &[]);
        if let Err(error) = validate(&stamp(&component, MANIFEST)) {
            panic!("WASI {wasi} must validate: {error:?}");
        }
    }
}

#[test]
fn stdlib_and_sloper_can_import_different_compatible_wasi_versions() {
    let mut packages = PACKAGES.iter().map(|(name, text)| parse(name, text)).collect::<Vec<_>>();
    packages.push(parse("extension.wit", WORLD));
    packages.extend(
        PACKAGES
            .iter()
            .filter(|(name, _)| *name != "sloper-api.wit")
            .map(|(name, text)| parse(name, &rewrite_wit(text, &[("0.2.12", "0.2.0")]))),
    );
    let root = parse(
        "combined.wit",
        "package sloper:fixture; world combined { include sloper:extension/extension@0.1.0; include wasi:cli/imports@0.2.0; import wasi:http/types@0.2.0; import wasi:http/outgoing-handler@0.2.0; }",
    );
    let mut resolve = Resolve::default();
    let package = resolve.push_groups(root, packages).expect("both compatible WASI versions resolve");
    let world = resolve.select_world(&[package], Some("combined")).expect("combined world exists");
    let component = compile_world(&resolve, world, &[]);
    validate(&stamp(&component, MANIFEST)).expect("mixed compatible versions satisfy the exact host world");
}

#[test]
fn compatible_import_versions_still_require_compatible_function_types() {
    let component = compiled_component(
        &[("0.2.12", "0.2.0"), ("get-random-u64: func() -> u64", "get-random-u64: func() -> u32")],
        &[],
    );
    assert_code(validate(&stamp(&component, MANIFEST)), "MANIFEST_WORLD_INVALID");
}

#[test]
fn unsupported_import_generations_and_sloper_versions_are_rejected() {
    for replacement in [
        ("0.2.12", "0.3.0"),
        ("0.2.12", "0.1.0"),
        ("import sloper:api/log@0.1.0;", "import private: func();"),
        ("@0.1.0", "@0.1.1"),
    ] {
        let component = compiled_component(&[replacement], &[]);
        assert_code(validate(&stamp(&component, MANIFEST)), "MANIFEST_WORLD_INVALID");
    }
}

#[test]
fn valid_manifest_cannot_admit_missing_or_wrong_action_exports() {
    assert_code(validate(&stamp(HEADER, MANIFEST)), "MANIFEST_WORLD_INVALID");
    for replacement in [
        ("run: async func(request: request)", "run: func(request: request)"),
        ("run: async func(request: request)", "run: async func(request: string)"),
        ("result<_, failure>;", "result<string, failure>;"),
        ("export action;", "export action; export surprise: func();"),
        ("run: async func(request: request)", "extra: func(); run: async func(request: request)"),
    ] {
        let component = compiled_component(&[replacement], &[]);
        assert_code(validate(&stamp(&component, MANIFEST)), "MANIFEST_WORLD_INVALID");
    }
}

#[test]
fn check_reassembles_and_compares_exact_embedded_bytes() {
    let component = compiled_component(&[], &[EXTENSION, ACTION]);
    let parts = extract_parts(&component).expect("declarations are kept");
    assert_eq!(parts, [EXTENSION, ACTION]);
    let assembled = serde_json::to_vec(&document(&parts)).unwrap();
    let stamped = stamp(&component, &assembled);
    check_component(&stamped, validate(&stamped), Ok(assembled.clone())).expect("component and assembly agree");
    let different = stamp(&component, MANIFEST);
    assert_code(check_component(&different, validate(&different), Ok(assembled)), "EXTENSION_MANIFEST_MISMATCH");
}

#[test]
fn components_are_judged_on_their_bytes_alone() {
    let parse = |bytes: &[u8]| -> Result<Json, Vec<Finding>> {
        serde_json::from_slice::<Value>(bytes).map(|value| to_json(&value)).map_err(|_| vec![finding("MALFORMED")])
    };
    let decode = |part: &[u8]| fragment(part).values;
    let encode = |text: &String| -> Result<Vec<u8>, Vec<Finding>> { Ok(text.clone().into_bytes()) };
    let accept = |_: &Vec<u8>| -> Result<(), Vec<Finding>> { Ok(()) };
    let component = compiled_component(&[], &[EXTENSION, ACTION]);
    let built = stamp_artifact(&component, "acme".to_owned(), &decode, &encode, &accept).ok().unwrap().component;
    let embedded = extract_manifest(&built).unwrap();
    let declared = serde_json::from_slice::<Value>(embedded).unwrap();
    assert_eq!(to_value(&validate_extension(&built, &parse, &host()).unwrap()), declared);
    assert_eq!(to_value(&check_extension(&built, &parse, &host(), &decode, &encode).unwrap()), declared);
    let judged = judge_extension(&built, &parse, &host(), &decode, &encode).ok().unwrap();
    assert!(judged.valid && to_value(&judged.manifest) == declared);
    let report = report_extension(&built, &parse, &host()).unwrap();
    assert_eq!(report.manifest.as_deref().map(str::as_bytes), Some(embedded));
    let different = stamp(&component, MANIFEST);
    assert!(validate_extension(&different, &parse, &host()).is_ok());
    assert_code(check_extension(&different, &parse, &host(), &decode, &encode), "EXTENSION_MANIFEST_MISMATCH");
    assert!(judge_extension(&different, &parse, &host(), &decode, &encode).is_err());
    let malformed = stamp(&component, b"{");
    assert_code(validate_extension(&malformed, &parse, &host()), "MALFORMED");
    assert_eq!(report_extension(&malformed, &parse, &host()).unwrap().findings[0].code, "MALFORMED");
    assert_code(check_extension(&malformed, &parse, &host(), &decode, &encode), "MALFORMED");
    let unstamped = report_extension(&component, &parse, &host()).unwrap();
    assert!(!unstamped.valid && unstamped.manifest.is_none());
    let empty = report_extension(&stamp(HEADER, MANIFEST), &parse, &host()).unwrap();
    assert_eq!(empty.findings[0].message, EXPORT_MESSAGE);
    let long = vec![0; 64 * 1024 * 1024 + 1];
    assert_eq!(report_extension(&long, &parse, &host()).unwrap().findings[0].code, "MANIFEST_TOO_LARGE");
}

#[test]
fn static_publication_accepts_non_sdk_components_without_executing_their_start() {
    let component = trapping_component();
    validate(&component).expect("static validation does not execute the trapping start");
    let assembled = assemble(&extract_parts(&component).expect("there are no declarations"));
    let assembled = assembled.map(|assembled| serde_json::to_vec(&to_value(&assembled.document())).unwrap());
    assert_code(check_component(&component, validate(&component), assembled), "EXTENSION_PARTS_ABSENT");
}

#[test]
fn encoded_packages_are_no_components() {
    let mut resolve = Resolve::default();
    let package = resolve.push_groups(parse("a.wit", "package acme:a; interface i { f: func(); }"), Vec::new()).unwrap();
    let bytes = wit_component::encode(&resolve, package, false).expect("package encodes");
    let stamped = stamp(&bytes, MANIFEST);
    let error = validate(&stamped).unwrap_err();
    assert_eq!(error.findings()[0].message, "Expected an executable component, not a WIT package.");
}

#[test]
fn worlds_that_do_not_resolve_admit_nothing() {
    let component = compiled_component(&[], &[]);
    let broken = HostWorld { packages: host().packages, source: "package sloper:extension@0.1.0; world".to_owned() };
    assert_code(validate_component(&stamp(&component, MANIFEST), Ok(()), &broken), "MANIFEST_WORLD_INVALID");
}

#[test]
fn compatible_source_preserves_filtered_bytes_and_literal_replacements() {
    for version in ["0.2.0", "0.2.9", "0.2.12", "0.2.100"] {
        for source in PACKAGES.iter().map(|(_, source)| *source).chain([
            "",
            "\n",
            "@since(version = 0.2.1)\n",
            "@0.2.12 @0.2.12\n\n @deprecated(version = 0.2.2)\nlast\n",
            "carriage\r\nreturn\r",
        ]) {
            let expected = source
                .lines()
                .filter(|line| {
                    !line.trim_start().starts_with("@since(") && !line.trim_start().starts_with("@deprecated(")
                })
                .collect::<Vec<_>>()
                .join("\n")
                .replace("@0.2.12", &format!("@{version}"));
            assert_eq!(compatible_wasi_source(source, version), expected);
        }
    }
}

#[test]
fn extracted_metadata_borrows_the_original_component() {
    let stamped = stamp(HEADER, MANIFEST);
    let manifest = extract_manifest(&stamped).unwrap();
    assert!(std::ptr::eq(manifest.as_ptr(), stamped[stamped.len() - MANIFEST.len()..].as_ptr()));
    let mut module = CORE_HEADER.to_vec();
    let part = br#"{"kind":"action","name":"run"}"#;
    let mut section = Vec::new();
    encode_leb("sloper:parts".len(), &mut section);
    section.extend_from_slice(b"sloper:parts");
    section.extend_from_slice(part);
    module.push(0);
    encode_leb(section.len(), &mut module);
    module.extend_from_slice(&section);
    let mut component = HEADER.to_vec();
    component.push(1);
    encode_leb(module.len(), &mut component);
    component.extend_from_slice(&module);
    let parts = extract_parts(&component).unwrap();
    assert_eq!(parts, [part.as_slice()]);
    assert!(std::ptr::eq(parts[0].as_ptr(), component[component.len() - part.len()..].as_ptr()));
}

#[test]
fn manifest_findings_reuse_the_retained_native_cause() {
    let error = ComponentError::Manifest(vec![Finding {
        code: "MANIFEST_INVALID_VALUE".to_owned(),
        location: "item".to_owned(),
        message: "Invalid value.".to_owned(),
    }]);
    assert_eq!(error.findings()[0].location, "item");
    assert!(format!("{error:?}").contains("MANIFEST_INVALID_VALUE"));
    assert_eq!(
        sloper_extension::tool::Error::Component(error).message(),
        "extension component validation failed"
    );
}

#[test]
fn stamping_renders_exact_sections_across_leb_widths() {
    for padding in [0, 1, 127, 128, 16383, 16384] {
        let mut manifest = MANIFEST.to_vec();
        manifest.resize(manifest.len() + padding, b' ');
        let mut payload = Vec::new();
        encode_leb(MANIFEST_SECTION.len(), &mut payload);
        payload.extend_from_slice(MANIFEST_SECTION.as_bytes());
        payload.extend_from_slice(&manifest);
        let mut expected = HEADER.to_vec();
        expected.push(0);
        encode_leb(payload.len(), &mut expected);
        expected.extend_from_slice(&payload);
        let actual = stamp(HEADER, &manifest);
        assert_eq!(actual, expected);
        assert_eq!(actual.capacity(), actual.len());
    }
    for value in [0, 1, 127, 128, 16383, 16384, u32::MAX as usize, usize::MAX] {
        let mut bytes = Vec::new();
        encode_leb(value, &mut bytes);
        assert_eq!(leb_width(value), bytes.len());
    }
}

#[test]
fn moved_declaration_fields_keep_type_and_action_list_rejections() {
    for invalid in [
        br#"{"name":"run"}"#.as_slice(),
        br#"{"kind":1,"name":"run"}"#,
        br#"{"kind":"action"}"#,
        br#"{"kind":"action","name":[]}"#,
    ] {
        assert_code(assemble(&[EXTENSION, invalid]), "EXTENSION_PARTS_INVALID");
    }
    for actions in ["null", "{}", "[\"run\",\"run\"]", "[\"other\"]"] {
        let mut value: Value = serde_json::from_slice(EXTENSION).unwrap();
        value["actions"] = serde_json::from_str(actions).unwrap();
        let bytes = serde_json::to_vec(&value).unwrap();
        assert_code(assemble(&[&bytes, ACTION]), "EXTENSION_ACTION_LIST_INVALID");
    }
    assert_code(assemble(&[EXTENSION, ACTION, ACTION]), "EXTENSION_PARTS_DUPLICATED");
}

fn version(minor: u64, patch: u64, pre: &str) -> Option<SemanticVersion> {
    Some(SemanticVersion {
        major: 0,
        minor,
        patch,
        pre: pre.to_owned(),
        build: String::new(),
        text: format!("0.{minor}.{patch}"),
    })
}

fn names(list: &[&str]) -> Vec<String> {
    list.iter().map(|name| name.to_string()).collect()
}

fn code<T>(result: Result<T, ComponentError>) -> String {
    match result {
        Ok(_) => panic!("the component is refused"),
        Err(error) => error.findings().remove(0).message,
    }
}

#[test]
fn imports_are_matched_by_interface_and_release() {
    let supported = names(&["wasi:io/poll@0.2.12", "sloper:api/log@0.1.0"]);
    assert_eq!(match_import("sloper:api/log@0.1.0", None, &supported).unwrap(), None);
    assert_eq!(match_import("wasi:io/poll@0.2.3", version(2, 3, ""), &supported).unwrap(), Some(3));
    for (name, found) in [
        ("wasi:io/poll", None),
        ("wasi:io/poll@x", None),
        ("wasi:io/poll@0.3.0", version(3, 0, "")),
        ("wasi:io/poll@0.2.3-rc", version(2, 3, "rc")),
        ("sloper:api/log@0.2.3", version(2, 3, "")),
        ("wasi:io/streams@0.2.3", version(2, 3, "")),
    ] {
        assert!(match_import(name, found, &supported).is_err(), "{name}");
    }
    let imports = names(&["wasi:io/poll@0.2.9", "wasi:io/poll@0.2.3", "wasi:io/poll@0.2.9", "sloper:api/log@0.1.0"]);
    assert_eq!(match_import_names(&imports, &supported).unwrap(), [3, 9]);
    assert!(match_import_names(&names(&["wasi:io/poll@0.2"]), &supported).is_err());
}

#[test]
fn worlds_are_judged_by_their_exports_and_imports() {
    let export = |functions: Option<&[&str]>| Export {
        name: "sloper:extension/action@0.1.0".to_owned(),
        functions: functions.map(names),
    };
    let expected = names(&["sloper:extension/action@0.1.0"]);
    assert!(validate_exports(&vec![export(Some(&["run"]))], &expected).is_ok());
    for exports in [vec![], vec![export(None)], vec![export(Some(&[]))], vec![export(Some(&["run", "stop"]))]] {
        assert!(validate_exports(&exports, &expected).is_err());
    }
    let world = |imports: &[&str]| {
        Some(ComponentWorld { exports: vec![export(Some(&["run"]))], imports: names(imports) })
    };
    let resolved = || Some((expected.clone(), names(&["wasi:io/poll@0.2.12"])));
    assert_eq!(judge_world(world(&["wasi:io/poll@0.2.1"]), resolved()).unwrap(), [1]);
    assert_eq!(judge_world(world(&[]), resolved()).unwrap(), [0u64; 0]);
    assert!(judge_world(world(&["wasi:io/poll@0.1.0"]), resolved()).is_err());
    assert!(judge_world(world(&[]), None).is_err());
    assert!(judge_world(None, resolved()).is_err());
    assert!(judge_types(Some(true)).is_ok());
    assert!(judge_types(Some(false)).is_err());
    assert!(judge_types(None).is_err());
}

#[test]
fn compatible_releases_offer_the_packages_of_the_host() {
    let packages = vec![
        ("sloper-api.wit".to_owned(), "package sloper:api@0.1.0;".to_owned()),
        ("io.wit".to_owned(), "package wasi:io@0.2.12;\n  @since(version = 0.2.0)\ninterface poll {}".to_owned()),
    ];
    let (main, documents) = write_release(&packages, 3);
    assert_eq!(main.0, "admission.wit");
    assert_eq!(
        main.1,
        "package sloper:admission@0.2.3; world host { include wasi:cli/imports@0.2.3; import wasi:http/types@0.2.3; import wasi:http/outgoing-handler@0.2.3; }"
    );
    assert_eq!(documents, [("io.wit".to_owned(), "package wasi:io@0.2.3;\ninterface poll {}".to_owned())]);
}

#[test]
fn packages_that_a_release_would_add_again_are_refused() {
    let with = |text: &str| {
        let mut world = host();
        world.packages.push(("more.wit".to_owned(), text.to_owned()));
        world
    };
    let pinned = with("package acme:more; interface more {}");
    let current = stamp(&compiled_component(&[], &[]), MANIFEST);
    assert!(validate_component(&current, Ok(()), &pinned).is_ok());
    let other = stamp(&compiled_component(&[("@0.2.12", "@0.2.3")], &[]), MANIFEST);
    assert!(validate(&other).is_ok());
    assert_code(validate_component(&other, Ok(()), &pinned), "MANIFEST_WORLD_INVALID");
    let released = with("package acme:more@0.2.12; interface more {}");
    assert!(validate_component(&other, Ok(()), &released).is_ok());
}

#[test]
fn packages_whose_types_refer_to_too_many_others_are_refused() {
    let component = stamp(&compiled_component(&[], &[]), MANIFEST);
    let with = |count: usize, reversed: bool| {
        let mut records: Vec<String> =
            (1..count).map(|index| format!("record r{index} {{ x: r{} }}", index - 1)).collect();
        if reversed {
            records.reverse();
        }
        let mut world = host();
        world.source = world.source.replace("export action;", "import acme:chain/chain; export action;");
        world.packages.push((
            "chain.wit".to_owned(),
            format!(
                "package acme:chain; interface chain {{ record r0 {{ x: u8 }} {} last: func() -> r{}; }}",
                records.join(" "),
                count - 1
            ),
        ));
        world
    };
    for reversed in [false, true] {
        assert!(validate_component(&component, Ok(()), &with(90, reversed)).is_ok());
        assert_code(validate_component(&component, Ok(()), &with(MAX_CHAIN - 100, reversed)), "MANIFEST_WORLD_INVALID");
        assert_code(validate_component(&component, Ok(()), &with(MAX_CHAIN, reversed)), "MANIFEST_WORLD_INVALID");
    }
    let mut unused = with(MAX_CHAIN - 100, true);
    unused.source = host().source;
    assert!(validate_component(&component, Ok(()), &unused).is_ok());
    let interfaces: Vec<String> =
        (1..1400).map(|index| format!("interface i{index} {{ use i{}.{{t}}; }}", index - 1)).collect();
    let mut chained = host();
    chained.source = chained.source.replace("export action;", "import acme:chain/i1399; export action;");
    chained.packages.push((
        "chain.wit".to_owned(),
        format!("package acme:chain; interface i0 {{ type t = u8; }} {}", interfaces.join(" ")),
    ));
    assert!(validate_component(&component, Ok(()), &chained).is_ok());
}

fn is_decodable(component: &[u8]) -> bool {
    matches!(shape(component), Some(Shape::Empty) | Some(Shape::Mixed))
}

#[test]
fn components_whose_functions_or_types_are_misnamed_are_not_decoded() {
    let real = compiled_component(&[], &[]);
    assert!(is_decodable(&real));
    let function = append_section(HEADER, 7, &[1, 0x40, 0, 1, 0]);
    let import = |name: &[u8], description: &[u8]| {
        let mut contents = vec![1, 0, name.len() as u8];
        contents.extend_from_slice(name);
        contents.extend_from_slice(description);
        append_section(&function, 10, &contents)
    };
    assert!(is_decodable(&import(b"f", &[1, 0])));
    assert!(!is_decodable(&import(b"a:b/c", &[1, 0])));
    assert!(!is_decodable(&import(b"[method]r.f", &[1, 0])));
    assert!(!is_decodable(&import(b"t", &[3, 0, 0])));
    assert!(!is_decodable(&import(b"t", &[5, 0])));
    let resource = import(b"r", &[3, 1]);
    assert!(is_decodable(&resource));
    assert!(is_decodable(&append_section(&resource, 10, b"\x01\0\x0b[method]r.f\x01\0")));
    assert!(!is_decodable(&append_section(&resource, 10, b"\x01\0\x0b[method]s.f\x01\0")));
    assert!(is_decodable(&import(b"m", &[0, 0x11, 0])));
    assert!(is_decodable(&import(b"v", &[2, 1, 0x7d])));
    for misnamed in [import(b"a:b/c", &[1, 0]), import(b"t", &[3, 0, 0])] {
        let stamped = stamp(&misnamed, MANIFEST);
        assert_code(validate(&stamped), "MANIFEST_WORLD_INVALID");
    }
    let interface = |declarations: &[&[u8]]| {
        let mut contents = vec![1, 0x42, declarations.len() as u8];
        contents.extend(declarations.concat());
        append_section(&append_section(HEADER, 7, &contents), 10, b"\x01\0\x05a:b/c\x05\0")
    };
    let signature: &[u8] = &[1, 0x40, 0, 1, 0];
    let resource: &[u8] = &[4, 0, 1, b'r', 3, 1];
    let method: &[u8] = b"\x04\0\x0b[method]r.f\x01\0";
    assert!(is_decodable(&interface(&[signature, resource, method])));
    assert!(!is_decodable(&interface(&[signature, method])));
    assert!(!is_decodable(&interface(&[signature, &[4, 0, 1, b't', 3, 0, 0]])));
    assert!(!is_decodable(&interface(&[signature, b"\x04\0\x05a:b/c\x01\0"])));
    assert!(!is_decodable(&interface(&[&[1, 0x42, 0]])));
}

#[test]
fn interfaces_with_types_that_share_a_name_are_not_decoded() {
    let plain = append_section(HEADER, 7, &[1, 0x42, 0]);
    let typed = append_section(HEADER, 7, &[1, 0x42, 2, 1, 0x7d, 4, 0, 1, b't', 3, 0, 0]);
    for (types, shared) in [(&plain, true), (&typed, false)] {
        let imports = append_section(types, 10, b"\x01\0\x05a:b/c\x05\0");
        assert!(is_decodable(&imports));
        let nested = append_section(&imports, 4, HEADER);
        let made = append_section(&nested, 5, &[1, 0, 0, 0]);
        assert!(is_decodable(&append_section(&made, 11, b"\x01\0\x05a:b/d\x05\x01\0")));
        assert_eq!(is_decodable(&append_section(&made, 11, b"\x01\0\x05a:b/c\x05\x01\0")), shared);
        assert!(is_decodable(&append_section(&imports, 11, b"\x01\0\x05a:b/d\x05\0\0")));
        assert_eq!(is_decodable(&append_section(types, 10, b"\x01\0\x07a:b/c/d\x05\0")), shared);
        let twice = stamp(&append_section(&made, 11, b"\x01\0\x05a:b/c\x05\x01\0"), MANIFEST);
        let error = validate(&twice).unwrap_err();
        assert_eq!(error.findings()[0].message == EXPORT_MESSAGE, shared);
    }
}

#[test]
fn instances_are_made_of_what_is_recognised() {
    let function = append_section(HEADER, 7, &[1, 0x40, 0, 1, 0]);
    let imported = append_section(&function, 10, b"\x01\0\x01f\x01\0");
    let export = |component: &[u8]| append_section(component, 11, b"\x01\0\x05a:b/d\x05\0\0");
    let items = append_section(&imported, 5, b"\x01\x01\x01\0\x01g\x01\0");
    assert!(is_decodable(&export(&items)));
    let error = validate(&stamp(&export(&items), MANIFEST)).unwrap_err();
    assert_eq!(error.findings()[0].message, EXPORT_MESSAGE);
    let misnamed = append_section(&imported, 5, b"\x01\x01\x01\0\x0b[method]r.f\x01\0");
    assert!(is_decodable(&misnamed));
    assert!(!is_decodable(&export(&misnamed)));
    let nested = append_section(HEADER, 4, &append_section(HEADER, 13, &[1]));
    let unknown = append_section(&nested, 5, &[1, 0, 0, 0]);
    assert!(is_decodable(&unknown));
    assert!(!is_decodable(&export(&unknown)));
    assert!(is_decodable(&append_section(&append_section(HEADER, 9, &[1, 0]), 12, &[1, 0])));
    let types = append_section(HEADER, 7, &[1, 0x41, 1, 1, 0x42, 0]);
    assert_eq!(shape(&append_section(&types, 11, b"\x01\0\x01w\x03\0\0")), Some(Shape::Package));
    assert_eq!(shape(&append_section(&types, 11, b"\x01\0\x07a:b/wit\x03\0\0")), Some(Shape::Package));
    assert_eq!(shape(&append_section(&types, 11, b"\x01\0\x05a:b/c\x03\0\0")), Some(Shape::Mixed));
    let defined = append_section(HEADER, 7, &[1, 0x7d]);
    assert_eq!(shape(&append_section(&defined, 11, b"\x01\0\x01w\x03\0\0")), Some(Shape::Mixed));
}

#[test]
fn interfaces_may_use_the_types_of_many_others() {
    let count: usize = 4000;
    let mut component = HEADER.to_vec();
    for place in 0..count {
        let mut contents = vec![1, 0x42, 2];
        if place == 0 {
            contents.extend_from_slice(&[1, 0x7d]);
        } else {
            contents.extend_from_slice(&[2, 3, 2, 1]);
            encode_leb(2 * place - 1, &mut contents);
        }
        contents.extend_from_slice(&[4, 0, 1, b't', 3, 0, 0]);
        component = append_section(&component, 7, &contents);
        let name = format!("a:p{place}/i");
        let mut import = vec![1, 0, name.len() as u8];
        import.extend_from_slice(name.as_bytes());
        import.push(5);
        encode_leb(2 * place, &mut import);
        component = append_section(&component, 10, &import);
        let mut alias = vec![1, 3, 0];
        encode_leb(place, &mut alias);
        alias.extend_from_slice(&[1, b't']);
        component = append_section(&component, 6, &alias);
    }
    assert!(is_decodable(&component));
    let error = validate(&stamp(&component, MANIFEST)).unwrap_err();
    assert_eq!(error.findings()[0].message, EXPORT_MESSAGE);
}

#[test]
fn nested_manifests_are_ignored_however_their_length_is_written() {
    let stamped = stamp(HEADER, MANIFEST);
    let nested = stamp(HEADER, b"other");
    for mut bytes in [stamped.clone(), HEADER.to_vec()] {
        let found = extract_manifest(&bytes).map(<[u8]>::to_vec).ok();
        bytes.push(4);
        bytes.extend_from_slice(&[0x80 | nested.len() as u8, 0x80, 0x80, 0]);
        bytes.extend_from_slice(&nested);
        assert_eq!(extract_manifest(&bytes).map(<[u8]>::to_vec).ok(), found);
    }
}

#[test]
fn manifests_too_long_to_be_read_back_are_not_stamped() {
    let limit = vec![b' '; MAX_MANIFEST_BYTES];
    let stamped = stamp(HEADER, &limit);
    assert_eq!(extract_manifest(&stamped).unwrap(), limit);
    assert_code(stamp_manifest(&stamped, b"", Err(Vec::new())), "EXTENSION_ALREADY_STAMPED");
    let excess = vec![b' '; MAX_MANIFEST_BYTES + 1];
    assert_code(stamp_manifest(HEADER, &excess, Ok(())), "MANIFEST_TOO_LARGE");
}

#[test]
fn rejected_parts_leave_those_found_before() {
    let module = append_section(CORE_HEADER, 0, &custom(b"sloper:parts", b"first"));
    let truncated = [append_section(HEADER, 1, &module), vec![0, 9]].concat();
    let mut parts: Vec<&[u8]> = vec![b"old"];
    assert!(walk_parts(&truncated, &mut parts, 0).is_err());
    assert_eq!(parts, [b"old".as_slice(), b"first".as_slice()]);
    for depth in [33, 34, usize::MAX] {
        let mut parts: Vec<&[u8]> = vec![b"old"];
        assert!(walk_parts(&module, &mut parts, depth).is_err());
        assert_eq!(parts, [b"old".as_slice()]);
    }
    for position in [3, 4, usize::MAX] {
        assert_eq!(unsigned_leb(&[1, 2, 3], position).unwrap_err().code(), "MANIFEST_MALFORMED");
    }
    assert_eq!(unsigned_leb(&[0, 0xff, 0xff, 0xff, 0xff, 0x0f], 1), Ok((u32::MAX as usize, 6)));
}

#[test]
fn components_with_every_kind_of_type_are_decoded() {
    let text = "package acme:rich@1.0.0;
interface io {
  resource error { to-text: func() -> string; }
  variant fault { closed, failed(error) }
  resource pipe {
    constructor(size: u32);
    read: func(count: u64) -> result<list<u8>, fault>;
    open: static func() -> pipe;
  }
  flags access { read, write }
  enum side { left, right }
  record item { first: tuple<u8, option<string>>, rest: list<side>, access: access }
  type items = list<item>;
  poll: async func(pipes: list<borrow<pipe>>) -> result<items, string>;
  watch: func() -> stream<u8>;
  later: func() -> future<string>;
}
interface wrapped {
  use io.{pipe, fault, item};
  get: func() -> pipe;
  put: func(into: borrow<pipe>, item: item) -> result<_, fault>;
}
interface run {
  use io.{item};
  record answer { items: list<item>, text: char }
  go: func(item: item) -> answer;
}
world rich { import io; import wrapped; import level: func(x: f64) -> s16; export run; export stop: func(); }
";
    let mut resolve = Resolve::default();
    let package = resolve.push_groups(parse("rich.wit", text), Vec::new()).expect("the package resolves");
    let world = resolve.select_world(&[package], Some("rich")).expect("the world exists");
    let component = compile_world(&resolve, world, &[]);
    assert!(is_decodable(&component));
    let error = validate(&stamp(&component, MANIFEST)).unwrap_err();
    assert_eq!(error.findings()[0].message, "Component must export exactly the Sloper action interface.");
}

//! Publishing a component: the endpoint, the request, the receipt and how failures are reported.

use base64::engine::general_purpose::URL_SAFE_NO_PAD;
use base64::Engine;
use serde_json::Value;
use sloper_extension::component::{extract_manifest, stamp_manifest};
use sloper_extension::envelope::Rejection;
use sloper_extension::component::ComponentError;
use sloper_extension::identity::digest;
use sloper_extension::json::{Json, Number};
use sloper_extension::publication::{
    accept_envelope, accept_version, api_origin, check_receipt, decode_receipt, endpoint, is_service, prepare_upload,
    request_id, valid_bearer, verify_receipt, write_request, ExtensionVersion, PublishOptions, ReleaseEnvelope,
    Upload, Visibility, DEFAULT_API_URL,
};
use sloper_extension::primitives::ParsedUrl;
use sloper_extension::release::{ObjectIdentity, ReleasePayload};
use sloper_extension::tool::{Error, Problem, PublicationError};

const HEADER: &[u8] = b"\0asm\x0d\0\x01\0";
const MANIFEST: &[u8] = br#"{"name":"sloper.host-test","version":"0.0.1"}"#;

fn to_value(json: &Json) -> Value {
    match json {
        Json::Null => Value::Null,
        Json::Bool(flag) => Value::from(*flag),
        Json::Number(Number::Unsigned(number)) => Value::from(*number),
        Json::Number(Number::Negative(number)) => Value::from(*number),
        Json::Number(Number::Decimal(text)) => serde_json::from_str(text).unwrap(),
        Json::Text(text) => Value::from(text.as_str()),
        Json::Array(items) => Value::Array(items.iter().map(to_value).collect()),
        Json::Object(members) => {
            Value::Object(members.iter().map(|(name, value)| (name.clone(), to_value(value))).collect())
        },
    }
}

fn component() -> Vec<u8> {
    stamp_manifest(HEADER, MANIFEST, Ok(())).unwrap()
}

fn identity() -> (String, String) {
    ("sloper.host-test".to_owned(), "0.0.1".to_owned())
}

fn upload() -> Upload {
    prepare_upload(&component(), Ok(identity()), &None, None).ok().unwrap()
}

fn claims(component: &[u8]) -> ReleasePayload {
    let manifest = extract_manifest(component).unwrap();
    ReleasePayload {
        extension: "sloper.host-test".to_owned(),
        version: "0.0.1".to_owned(),
        publisher: "Sloper".to_owned(),
        manifest: ObjectIdentity { digest: digest(manifest), bytes: manifest.len() as u64 },
        component: ObjectIdentity { digest: digest(component), bytes: component.len() as u64 },
        key: "test-key".to_owned(),
    }
}

fn receipt(component: &[u8]) -> (ExtensionVersion, ReleaseEnvelope, Option<ReleasePayload>) {
    let line = format!("{}.{}", URL_SAFE_NO_PAD.encode(b"claims"), URL_SAFE_NO_PAD.encode([0; 64]));
    let id = digest(line.as_bytes());
    (
        ExtensionVersion {
            extension_id: "sloper.host-test".to_owned(),
            version: "0.0.1".to_owned(),
            release_envelope_id: id.clone(),
        },
        ReleaseEnvelope {
            id,
            extension_id: "sloper.host-test".to_owned(),
            version: "0.0.1".to_owned(),
            publisher: "Sloper".to_owned(),
            component_sha256: digest(component),
            component_bytes: component.len() as i64,
            manifest: String::from_utf8(extract_manifest(component).unwrap().to_vec()).unwrap(),
            envelope: line,
        },
        Some(claims(component)),
    )
}

#[test]
fn receipt_checks_exact_manifest_component_and_envelope_identity() {
    let component = component();
    let upload = upload();
    let (version, mut envelope, payload) = receipt(&component);
    assert!(verify_receipt(&version, &envelope, &upload, &payload).is_ok());
    envelope.manifest.push(' ');
    assert!(verify_receipt(&version, &envelope, &upload, &payload).is_err());
    let (version, mut envelope, payload) = receipt(&component);
    envelope.component_sha256 = digest(b"other");
    assert!(verify_receipt(&version, &envelope, &upload, &payload).is_err());
    let (version, mut envelope, payload) = receipt(&component);
    envelope.envelope.push('x');
    assert!(verify_receipt(&version, &envelope, &upload, &payload).is_err());
}

#[test]
fn receipts_fail_on_every_other_claim() {
    let component = component();
    let upload = upload();
    let (version, envelope, _) = receipt(&component);
    assert!(verify_receipt(&version, &envelope, &upload, &None).is_err());
    let mut wrong = claims(&component);
    wrong.key = String::new();
    assert!(verify_receipt(&version, &envelope, &upload, &Some(wrong)).is_err());
    let mut wrong = claims(&component);
    wrong.publisher = "Other".to_owned();
    assert!(verify_receipt(&version, &envelope, &upload, &Some(wrong)).is_err());
    let mut wrong = claims(&component);
    wrong.component.bytes += 1;
    assert!(verify_receipt(&version, &envelope, &upload, &Some(wrong)).is_err());
    let (version, mut envelope, payload) = receipt(&component);
    envelope.component_bytes = -1;
    assert!(verify_receipt(&version, &envelope, &upload, &payload).is_err());
    let (version, mut envelope, payload) = receipt(&component);
    envelope.envelope = format!("{}.{}", URL_SAFE_NO_PAD.encode(b"claims"), URL_SAFE_NO_PAD.encode([0; 63]));
    envelope.id = digest(envelope.envelope.as_bytes());
    let version = ExtensionVersion { release_envelope_id: envelope.id.clone(), ..version };
    assert!(verify_receipt(&version, &envelope, &upload, &payload).is_err());
    assert_eq!(
        decode_receipt(&format!("{}.{}", URL_SAFE_NO_PAD.encode(b"claims"), URL_SAFE_NO_PAD.encode(b"sign"))),
        Some((b"claims".to_vec(), b"sign".to_vec()))
    );
    assert_eq!(decode_receipt("claims"), None);
}

#[test]
fn answers_are_accepted_for_the_uploaded_identity_alone() {
    let component = component();
    let upload = upload();
    let (version, envelope, payload) = receipt(&component);
    let accepted = accept_version(&upload, Some(version)).ok().unwrap();
    let result = accept_envelope(&upload, accepted, Some(envelope), &payload).ok().unwrap();
    assert_eq!(result.version.release_envelope_id, result.envelope.id);
    assert!(matches!(accept_version(&upload, None), Err(Error::InvalidResponse(_))));
    let (version, _, payload) = receipt(&component);
    let other = ExtensionVersion { version: "0.0.2".to_owned(), ..version };
    assert!(matches!(accept_version(&upload, Some(other)), Err(Error::InvalidResponse(_))));
    let (version, _, _) = receipt(&component);
    assert!(matches!(accept_envelope(&upload, version, None, &payload), Err(Error::InvalidResponse(_))));
    assert!(matches!(
        prepare_upload(HEADER, Ok(identity()), &None, None),
        Err(Error::Component(ComponentError::Rejected(Rejection::ManifestAbsent)))
    ));
}

#[test]
fn requests_are_identified_by_component_icon_and_audience() {
    assert_eq!(request_id(b"a", &None, None), digest(b"a"));
    assert_eq!(request_id(b"a", &Some(b"b".to_vec()), None), digest(b"ab"));
    assert_eq!(request_id(b"a", &Some(b"b".to_vec()), Some(Visibility::Public)), digest(b"abpublic"));
    assert_eq!(request_id(b"a", &None, Some(Visibility::Private)), digest(b"aprivate"));
    let upload = prepare_upload(&component(), Ok(identity()), &None, Some(Visibility::Public)).ok().unwrap();
    assert_eq!(upload.request_id, digest(&[component(), b"public".to_vec()].concat()));
    assert_eq!(upload.manifest, MANIFEST);
    assert_eq!(upload.manifest_digest, digest(MANIFEST));
    assert_eq!(upload.component_length, component().len() as u64);
}

#[test]
fn publication_origin_uses_configured_scheme_host_and_port() {
    assert_eq!(api_origin(DEFAULT_API_URL).ok().unwrap(), "https://console.sloper.ai");
    assert_eq!(
        api_origin("https://publisher.example:443/delivery/").ok().unwrap(),
        "https://publisher.example"
    );
    assert_eq!(api_origin("http://localhost:9080/delivery/").ok().unwrap(), "http://localhost:9080");
    assert_eq!(
        api_origin("https://publisher.example:8443/delivery/?setting=value#fragment").ok().unwrap(),
        "https://publisher.example:8443"
    );
    for value in ["", "relative/path", "file:///component", "data:text/plain,origin"] {
        assert_eq!(api_origin(value).err().unwrap().exit_code(), 2);
    }
}

#[test]
fn nested_origins_are_refused_before_they_are_followed() {
    let nested = "blob:".repeat(100_000) + "https://publisher.example";
    assert_eq!(api_origin(&nested).err().unwrap().exit_code(), 2);
}

#[test]
fn only_web_urls_have_an_origin() {
    let url = |scheme: &str, has_host| Some(ParsedUrl { scheme: scheme.to_owned(), has_host });
    assert!(is_service(&url("https", true)));
    assert!(is_service(&url("http", true)));
    assert!(!is_service(&url("https", false)));
    assert!(!is_service(&url("ftp", true)));
    assert!(!is_service(&None));
    assert_eq!(write_request(b"a", &Some(b"b".to_vec()), Some(Visibility::Public)), b"abpublic");
}

#[test]
fn receipts_need_a_signature_and_the_digest_of_their_line() {
    let component = component();
    let upload = upload();
    let (version, envelope, payload) = receipt(&component);
    let id = envelope.id.clone();
    assert!(check_receipt(Some(vec![0; 64]), &id, &version, &envelope, &upload, &payload));
    assert!(!check_receipt(Some(vec![0; 63]), &id, &version, &envelope, &upload, &payload));
    assert!(!check_receipt(None, &id, &version, &envelope, &upload, &payload));
    assert!(!check_receipt(Some(vec![0; 64]), "sha256:other", &version, &envelope, &upload, &payload));
}

#[test]
fn endpoints_need_a_bearer_and_lose_trailing_slashes() {
    let found = endpoint("https://publisher.example/delivery//", "bearer").ok().unwrap();
    assert_eq!(found.origin, "https://publisher.example");
    assert_eq!(found.base, "https://publisher.example/delivery/api/v1");
    for token in ["", "tab\t", "line\n", "\u{7f}", &"t".repeat(16_385)] {
        assert!(!valid_bearer(token), "{token}");
        assert_eq!(endpoint("https://publisher.example", token).err().unwrap().exit_code(), 2);
    }
    assert!(valid_bearer("explicit-publishing-bearer"));
}

#[test]
fn credential_debug_is_redacted() {
    let options = PublishOptions {
        directory: "secret/path",
        api_url: "https://example.invalid/secret",
        token: "secret-bearer",
        visibility: None,
    };
    let debug = options.debug_text();
    assert!(!debug.contains("secret"));
    let shown = PublishOptions { visibility: Some(Visibility::Public), ..options };
    assert_eq!(shown.debug_text(), "PublishOptions { visibility: Some(Public), .. }");
}

#[test]
fn publication_failure_boundary_preserves_categories_without_remote_bodies() {
    for (status, expected) in [(401, 6), (403, 8), (404, 5), (409, 4), (422, 3), (429, 9), (503, 9), (500, 10)] {
        let error = Error::Publication(PublicationError::Client { request: false, status: Some(status), problem: None });
        assert_eq!(error.exit_code(), expected);
        let command = to_value(&error.command_error());
        assert_eq!(command["details"]["status"], status);
        assert!(!command.to_string().contains("bearer-secret"));
        assert!(!error.debug_text().contains("bearer-secret"));
    }
    let error = Error::Publication(PublicationError::Client { request: false, status: None, problem: None });
    assert_eq!(error.exit_code(), 9);
    assert_eq!(to_value(&error.command_error())["details"], serde_json::from_str::<Value>("{}").unwrap());
    assert!(!to_value(&error.command_error()).to_string().contains("bearer-secret"));
}

#[test]
fn declared_problems_are_reported_in_the_details() {
    let error = Error::Publication(PublicationError::Client {
        request: false,
        status: Some(409),
        problem: Some(Problem {
            code: "VERSION_EXISTS".to_owned(),
            errors: Some(vec![Json::Text("taken".to_owned())]),
        }),
    });
    let command = to_value(&error.command_error());
    assert_eq!(command["exit"], 4);
    assert_eq!(command["details"]["status"], 409);
    assert_eq!(command["details"]["code"], "VERSION_EXISTS");
    assert_eq!(command["details"]["errors"][0], "taken");
    let request = Error::Publication(PublicationError::Client { request: true, status: None, problem: None });
    assert_eq!(request.exit_code(), 2);
    assert_eq!(Error::Publication(PublicationError::Header).exit_code(), 9);
}

#[test]
fn invalid_peer_responses_keep_the_command_failure_category() {
    let error = to_value(&Error::InvalidResponse("receipt does not match".to_owned()).command_error());
    assert_eq!(error["code"], "INVALID_RESPONSE");
    assert_eq!(error["exit"], 10);
    assert_eq!(error["retryable"], false);
    assert_eq!(error["message"], "receipt does not match");
}

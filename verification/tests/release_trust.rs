//! Signed trust documents and releases of a stamped component.

use aws_lc_rs::signature::{Ed25519KeyPair, KeyPair};
use base64::engine::general_purpose::URL_SAFE_NO_PAD;
use base64::Engine;
use serde_json::Value;
use sha2::{Digest, Sha256};
use sloper_extension::admission::{admit_component, complete_release, AdmittedComponent};
use sloper_extension::component::{extract_manifest, stamp_manifest, Finding};
use sloper_extension::host::ExecutionError;
use sloper_extension::manifest::Manifest;
use sloper_extension::publication::{fresh_trust, verify};
use sloper_extension::primitives::SemanticVersion;
use sloper_extension::table::Table;
use sloper_extension::world::HostWorld;
use sloper_extension::release::{
    accept_segment, admit_release, decode, timestamp, utc_instant, valid_public_key, KeyState, Malformed, ObjectIdentity,
    Reason, Release, ReleaseError, ReleaseKey, ReleasePayload, Revocation,
    RevocationReason, SignedLine, Trust, TrustPayload, TrustRoots, MAX_RELEASE_BYTES, MAX_TRUST_BYTES,
};

const HEADER: &[u8] = b"\0asm\x0d\0\x01\0";
const MANIFEST: &[u8] = br#"{"name":"sloper.host-test","version":"0.0.1","description":"Host","actions":{"run":{}}}"#;
const INSTANT: i128 = 1_788_220_800_000_000_000;
const DAY: i128 = 86_400_000_000_000;

struct Strict(Value);

struct StrictVisitor;

impl<'de> serde::de::Visitor<'de> for StrictVisitor {
    type Value = Strict;

    fn expecting(&self, formatter: &mut std::fmt::Formatter<'_>) -> std::fmt::Result {
        formatter.write_str("JSON without duplicate keys")
    }

    fn visit_unit<E>(self) -> Result<Strict, E> {
        Ok(Strict(Value::Null))
    }

    fn visit_bool<E>(self, value: bool) -> Result<Strict, E> {
        Ok(Strict(Value::from(value)))
    }

    fn visit_u64<E>(self, value: u64) -> Result<Strict, E> {
        Ok(Strict(Value::from(value)))
    }

    fn visit_i64<E>(self, value: i64) -> Result<Strict, E> {
        Ok(Strict(Value::from(value)))
    }

    fn visit_f64<E>(self, value: f64) -> Result<Strict, E> {
        Ok(Strict(Value::from(value)))
    }

    fn visit_str<E>(self, value: &str) -> Result<Strict, E> {
        Ok(Strict(Value::from(value)))
    }

    fn visit_seq<A: serde::de::SeqAccess<'de>>(self, mut items: A) -> Result<Strict, A::Error> {
        let mut values = Vec::new();
        while let Some(Strict(value)) = items.next_element()? {
            values.push(value);
        }
        Ok(Strict(Value::Array(values)))
    }

    fn visit_map<A: serde::de::MapAccess<'de>>(self, mut entries: A) -> Result<Strict, A::Error> {
        let mut values = serde_json::Map::new();
        while let Some((name, Strict(value))) = entries.next_entry::<String, Strict>()? {
            if values.insert(name, value).is_some() {
                return Err(serde::de::Error::custom("duplicate key"));
            }
        }
        Ok(Strict(Value::Object(values)))
    }
}

impl<'de> serde::Deserialize<'de> for Strict {
    fn deserialize<D: serde::Deserializer<'de>>(deserializer: D) -> Result<Strict, D::Error> {
        deserializer.deserialize_any(StrictVisitor)
    }
}

fn closed(value: &Value, fields: &[&str]) -> Option<serde_json::Map<String, Value>> {
    let members = value.as_object()?;
    if members.len() == fields.len() && fields.iter().all(|field| members.contains_key(*field)) {
        Some(members.clone())
    } else {
        None
    }
}

fn payload_value(line: &[u8], limit: usize) -> Option<Value> {
    let parsed = SignedLine::parse(line, limit).ok()?;
    serde_json::from_slice::<Strict>(&parsed.payload).ok().map(|strict| strict.0)
}

fn trust_claims(document: &[u8]) -> Option<TrustPayload> {
    let value = payload_value(document, MAX_TRUST_BYTES)?;
    let members = closed(&value, &["generation", "issued", "expires", "keys", "revoked"])?;
    let mut keys = Vec::new();
    for key in members["keys"].as_array()? {
        let key = closed(key, &["id", "public", "state"])?;
        keys.push(ReleaseKey {
            id: key["id"].as_str()?.to_owned(),
            public: key["public"].as_str()?.to_owned(),
            state: match key["state"].as_str()? {
                "active" => KeyState::Active,
                "retired" => KeyState::Retired,
                _ => return None,
            },
        });
    }
    let mut revoked = Vec::new();
    for revocation in members["revoked"].as_array()? {
        let revocation = closed(revocation, &["subject", "reason"])?;
        revoked.push(Revocation {
            subject: revocation["subject"].as_str()?.to_owned(),
            reason: RevocationReason::parse(revocation["reason"].as_str()?).ok()?,
        });
    }
    Some(TrustPayload {
        generation: members["generation"].as_u64()?,
        issued: members["issued"].as_str()?.to_owned(),
        expires: members["expires"].as_str()?.to_owned(),
        keys,
        revoked,
    })
}

fn object_claims(value: &Value) -> Option<ObjectIdentity> {
    let members = closed(value, &["digest", "bytes"])?;
    Some(ObjectIdentity { digest: members["digest"].as_str()?.to_owned(), bytes: members["bytes"].as_u64()? })
}

fn release_claims(envelope: &[u8]) -> Option<ReleasePayload> {
    let value = payload_value(envelope, MAX_RELEASE_BYTES)?;
    let members = closed(&value, &["extension", "version", "publisher", "manifest", "component", "key"])?;
    Some(ReleasePayload {
        extension: members["extension"].as_str()?.to_owned(),
        version: members["version"].as_str()?.to_owned(),
        publisher: members["publisher"].as_str()?.to_owned(),
        manifest: object_claims(&members["manifest"])?,
        component: object_claims(&members["component"])?,
        key: members["key"].as_str()?.to_owned(),
    })
}

fn key(seed: u8) -> Ed25519KeyPair {
    Ed25519KeyPair::from_seed_unchecked(&[seed; 32]).expect("32-byte Ed25519 test seed")
}

fn public(key: &Ed25519KeyPair) -> [u8; 32] {
    key.public_key().as_ref().try_into().expect("Ed25519 keys contain 32 bytes")
}

fn roots() -> TrustRoots {
    TrustRoots::new([public(&key(1)), public(&key(2))]).expect("distinct test roots")
}

fn hash(bytes: &[u8]) -> String {
    let mut output = String::from("sha256:");
    for byte in Sha256::digest(bytes) {
        output.push_str(&format!("{byte:02x}"));
    }
    output
}

fn line_raw(key: &Ed25519KeyPair, domain: &str, bytes: &[u8]) -> Vec<u8> {
    let segment = URL_SAFE_NO_PAD.encode(bytes);
    let signature = key.sign(format!("{domain}\0{segment}").as_bytes());
    format!("{segment}.{}", URL_SAFE_NO_PAD.encode(signature.as_ref())).into_bytes()
}

fn line(key: &Ed25519KeyPair, domain: &str, payload: &Value) -> Vec<u8> {
    line_raw(key, domain, &serde_json::to_vec(payload).expect("test JSON encodes"))
}

fn value(text: &str) -> Value {
    serde_json::from_str(text).expect("test JSON parses")
}

fn release_key(id: &str, seed: u8, state: &str) -> Value {
    value(&format!(
        "{{\"id\":\"{id}\",\"public\":\"{}\",\"state\":\"{state}\"}}",
        URL_SAFE_NO_PAD.encode(public(&key(seed)))
    ))
}

fn revocation(subject: &str, reason: &str) -> Value {
    value(&format!("[{{\"subject\":\"{subject}\",\"reason\":\"{reason}\"}}]"))
}

fn trust_payload(generation: u64) -> Value {
    let mut payload = value(
        "{\"generation\":0,\"issued\":\"2026-09-01T00:00:00Z\",\"expires\":\"2026-10-01T00:00:00Z\",\"keys\":[],\"revoked\":[]}",
    );
    payload["generation"] = Value::from(generation);
    payload["keys"] = Value::Array(vec![release_key("release-1", 3, "active")]);
    payload
}

fn verify_trust(document: &[u8], now: i128, previous: Option<&Trust>) -> Result<Trust, ReleaseError> {
    Trust::verify(document, trust_claims(document), &roots(), now, previous)
}

fn trust(payload: &Value, previous: Option<&Trust>) -> Result<Trust, ReleaseError> {
    verify_trust(&line(&key(1), "sloper.trust", payload), INSTANT, previous)
}

fn restore(trust: &Trust) -> Result<Trust, ReleaseError> {
    Trust::restore(
        trust.document(),
        trust_claims(trust.document()),
        &roots(),
        trust.trusted_at(),
        &trust.tombstones(),
    )
}

fn component() -> Vec<u8> {
    stamp_manifest(HEADER, MANIFEST, Ok(())).expect("component stamps")
}

fn release_payload() -> Value {
    value(&format!(
        "{{\"extension\":\"sloper.host-test\",\"version\":\"0.0.1\",\"publisher\":\"Acme\",\"manifest\":{{\"digest\":\"{}\",\"bytes\":{}}},\"component\":{{\"digest\":\"{}\",\"bytes\":{}}},\"key\":\"release-1\"}}",
        hash(MANIFEST),
        MANIFEST.len(),
        hash(&component()),
        component().len()
    ))
}

fn envelope(payload: &Value) -> Vec<u8> {
    line(&key(3), "sloper.release", payload)
}

fn verify_release(envelope: &[u8], trust: &Trust) -> Result<Release, ReleaseError> {
    Release::verify(envelope, release_claims(envelope), trust)
}

fn identity() -> Result<(String, String), Vec<Finding>> {
    Ok(("sloper.host-test".to_owned(), "0.0.1".to_owned()))
}

fn manifest() -> Manifest {
    Manifest {
        name: "sloper.host-test".to_owned(),
        version: "0.0.1".to_owned(),
        actions: Table::new(),
        resources: Table::new(),
        connections: Table::new(),
        configuration: None,
    }
}

fn admitted() -> AdmittedComponent {
    AdmittedComponent { component: component(), manifest: manifest(), manifest_bytes: MANIFEST.to_vec() }
}

fn install(envelope: &[u8], component: &[u8], trust: &Trust) -> Result<Release, ReleaseError> {
    admit_release(envelope, component, release_claims(envelope), identity(), trust)
}

fn assert_code<T>(result: Result<T, ReleaseError>, expected: &str) {
    match result {
        Ok(_) => panic!("deliberately invalid signed fixture must fail with {expected}"),
        Err(error) => assert_eq!(error.code(), expected, "failure={error:?}"),
    }
}

#[test]
fn signed_compiled_component_is_admitted_by_actual_host() {
    let trust = trust(&trust_payload(1), None).unwrap();
    let envelope = envelope(&release_payload());
    let release = install(&envelope, &component(), &trust).unwrap();
    assert_eq!(release.digest(), hash(&envelope));
    assert_eq!(extract_manifest(&component()).unwrap(), MANIFEST);
    assert_eq!(release.extension(), "sloper.host-test");
    assert_eq!(release.version(), "0.0.1");
    assert_eq!(release.publisher(), "Acme");
    assert_eq!(release.key(), "release-1");
    assert_eq!(release.component_digest(), hash(&component()));
    assert_eq!(release.manifest_digest(), hash(MANIFEST));
    assert_eq!(release.envelope(), envelope.as_slice());
}

#[test]
fn exact_segment_bytes_and_domain_are_authenticated() {
    let trust = trust(&trust_payload(1), None).unwrap();
    let payload = release_payload();
    let compact = envelope(&payload);
    let pretty = line_raw(&key(3), "sloper.release", &serde_json::to_vec_pretty(&payload).unwrap());
    let release = verify_release(&pretty, &trust).unwrap();
    assert_ne!(release.digest(), verify_release(&compact, &trust).unwrap().digest());
    let old_signature = compact.split(|byte| *byte == b'.').nth(1).expect("signature is present");
    let pretty_segment = pretty.split(|byte| *byte == b'.').next().expect("segment is present");
    let substituted = [pretty_segment, b".", old_signature].concat();
    assert_code(verify_release(&substituted, &trust), "release.signature-invalid");
    assert_code(
        verify_release(&line(&key(3), "sloper.trust", &payload), &trust),
        "release.signature-invalid",
    );
}

#[test]
fn both_embedded_roots_verify_but_roles_do_not_overlap() {
    let payload = trust_payload(1);
    verify_trust(&line(&key(2), "sloper.trust", &payload), INSTANT, None).unwrap();
    assert_code(verify_trust(&line(&key(3), "sloper.trust", &payload), INSTANT, None), "trust.invalid");
    assert_code(TrustRoots::new([public(&key(1)), public(&key(1))]), "trust.invalid");
    assert_code(TrustRoots::new([[0; 32], public(&key(2))]), "trust.invalid");
    let mut payload = payload;
    payload["keys"][0]["public"] = Value::from(URL_SAFE_NO_PAD.encode(public(&key(1))));
    assert_code(trust(&payload, None), "trust.invalid");
}

#[test]
fn trust_generation_preserves_the_full_nonnegative_signed_integer_domain() {
    for generation in [
        0,
        9_007_199_254_740_991,
        9_007_199_254_740_992,
        9_007_199_254_740_993,
        u64::try_from(i64::MAX).unwrap(),
    ] {
        assert_eq!(trust(&trust_payload(generation), None).unwrap().generation(), generation);
    }
    for generation in ["-1", "-0", "1.0", "1e0", "9223372036854775808", "\"1\""] {
        let payload = format!(
            "{{\"generation\":{generation},\"issued\":\"2026-09-01T00:00:00Z\",\"expires\":\"2026-10-01T00:00:00Z\",\"keys\":[],\"revoked\":[]}}"
        );
        assert_code(
            verify_trust(&line_raw(&key(1), "sloper.trust", payload.as_bytes()), INSTANT, None),
            "trust.invalid",
        );
    }
}

#[test]
fn closed_json_and_canonical_base64_are_required() {
    let trust = trust(&trust_payload(1), None).unwrap();
    let mut payload = release_payload();
    payload["unknown"] = Value::from(true);
    assert_code(verify_release(&envelope(&payload), &trust), "release.invalid");
    let duplicate = serde_json::to_string(&release_payload()).unwrap().replacen('{', "{\"key\":\"release-1\",", 1);
    assert_code(
        verify_release(&line_raw(&key(3), "sloper.release", duplicate.as_bytes()), &trust),
        "release.invalid",
    );
    let valid = envelope(&release_payload());
    for bad in [
        [valid.as_slice(), b"\n"].concat(),
        [valid.as_slice(), b"="].concat(),
        [valid.as_slice(), b".x"].concat(),
        vec![b'x'; 16 * 1024 + 1],
        b".x".to_vec(),
        b"x.".to_vec(),
        b"x.x".to_vec(),
    ] {
        assert_code(verify_release(&bad, &trust), "release.invalid");
    }
    let mut payload = release_payload();
    payload["component"]["bytes"] = Value::from(1.0);
    assert_code(verify_release(&envelope(&payload), &trust), "release.invalid");
}

#[test]
fn declared_size_limits_and_publisher_bounds_are_applied_before_hashing() {
    let trust = trust(&trust_payload(1), None).unwrap();
    for (field, bytes) in [("manifest", 256 * 1024 + 1), ("component", 64 * 1024 * 1024 + 1)] {
        let mut payload = release_payload();
        payload[field]["bytes"] = Value::from(bytes);
        assert_code(verify_release(&envelope(&payload), &trust), "release.invalid");
    }
    for publisher in ["x".repeat(65), "unsafe\u{202e}name".into(), String::new()] {
        let mut payload = release_payload();
        payload["publisher"] = Value::from(publisher);
        assert_code(verify_release(&envelope(&payload), &trust), "release.invalid");
    }
    for name in ["acme..demo", "acme.a--b", "acme.Demo"] {
        let mut payload = release_payload();
        payload["extension"] = Value::from(name);
        assert_code(verify_release(&envelope(&payload), &trust), "release.invalid");
    }
}

#[test]
fn digest_verification_precedes_declaration_and_world_admission() {
    let trust = trust(&trust_payload(1), None).unwrap();
    let signed = envelope(&release_payload());
    assert_code(install(&signed, b"malformed", &trust), "release.digest-mismatch");
    let mut payload = release_payload();
    payload["manifest"]["digest"] = Value::from(hash(b"changed"));
    assert_code(install(&envelope(&payload), &component(), &trust), "release.digest-mismatch");
    assert_code(install(&[], &component(), &trust), "extension.unsigned");
    let mut payload = release_payload();
    payload["extension"] = Value::from("acme.other");
    assert_code(install(&envelope(&payload), &component(), &trust), "release.invalid");
}

#[test]
fn same_generation_replay_advances_floor_and_never_revives_stale_trust() {
    let document = line(&key(1), "sloper.trust", &trust_payload(2));
    let mut accepted = verify_trust(&document, INSTANT, None).unwrap();
    accepted.advance_time(INSTANT + 31 * DAY);
    let replay = verify_trust(&document, INSTANT, Some(&accepted)).unwrap();
    assert_eq!(replay.trusted_at(), accepted.trusted_at());
    assert_code(replay.require_fresh(INSTANT), "trust.stale");
    assert_code(trust(&trust_payload(1), Some(&replay)), "trust.rollback");
    let mut changed = trust_payload(2);
    changed["revoked"] = revocation("sloper.host-test", "broken");
    assert_code(trust(&changed, Some(&replay)), "trust.rollback");
    let restored = restore(&replay).unwrap();
    assert_code(restored.require_fresh(INSTANT), "trust.stale");
}

#[test]
fn digest_and_key_tombstones_survive_omission_but_name_revocations_can_end() {
    let signed = envelope(&release_payload());
    for subject in [hash(&signed), hash(&component()), "key:release-1".into()] {
        let mut payload = trust_payload(1);
        payload["revoked"] = revocation(&subject, "compromised");
        let accepted = trust(&payload, None).unwrap();
        let mut next = trust_payload(2);
        next["keys"] = Value::Array(Vec::new());
        let next = trust(&next, Some(&accepted)).unwrap();
        if subject.starts_with("key:") {
            assert_code(verify_release(&signed, &next), "release.revoked");
        }
        let restored = restore(&next).unwrap();
        assert_eq!(restored.tombstones(), accepted.tombstones());
    }
    let mut payload = trust_payload(1);
    payload["revoked"] = revocation("sloper.host-test", "malicious");
    let revoked = trust(&payload, None).unwrap();
    assert_code(
        revoked.require_release(&verify_release(&signed, &revoked).unwrap()),
        "release.revoked",
    );
    let reconsidered = trust(&trust_payload(2), Some(&revoked)).unwrap();
    reconsidered.require_release(&verify_release(&signed, &reconsidered).unwrap()).unwrap();
    assert!(reconsidered.tombstones().is_empty(), "name revocation is current-document state");
}

#[test]
fn admission_checks_component_identity_before_name_and_digest_revocation() {
    let signed = envelope(&release_payload());
    for subject in [hash(&signed), hash(&component()), "sloper.host-test".into()] {
        let mut payload = trust_payload(1);
        payload["revoked"] = revocation(&subject, "malicious");
        let trust = trust(&payload, None).unwrap();
        assert_code(install(&signed, b"different component", &trust), "release.digest-mismatch");
        assert_code(install(&signed, &component(), &trust), "release.revoked");
    }
}

#[test]
fn component_revocation_rejects_resigned_bytes_and_survives_trust_omission() {
    let mut trusted = trust_payload(1);
    trusted["keys"].as_array_mut().unwrap().push(release_key("release-2", 4, "active"));
    let original_envelope = envelope(&release_payload());
    let mut resigned = release_payload();
    resigned["key"] = Value::from("release-2");
    let resigned_envelope = line(&key(4), "sloper.release", &resigned);
    assert_ne!(hash(&original_envelope), hash(&resigned_envelope));

    let clean = trust(&trusted, None).unwrap();
    let original = verify_release(&original_envelope, &clean).unwrap();
    let replacement = verify_release(&resigned_envelope, &clean).unwrap();
    clean.require_release(&original).unwrap();
    clean.require_release(&replacement).unwrap();

    trusted["generation"] = Value::from(2);
    trusted["revoked"] = revocation(&hash(&component()), "malicious");
    let revoked = trust(&trusted, Some(&clean)).unwrap();
    trusted["generation"] = Value::from(3);
    trusted["revoked"] = Value::Array(Vec::new());
    let omitted = trust(&trusted, Some(&revoked)).unwrap();
    let restored = restore(&omitted).unwrap();
    for accepted in [&revoked, &omitted, &restored] {
        assert_code(accepted.require_release(&original), "release.revoked");
        assert_code(accepted.require_release(&replacement), "release.revoked");
        assert_code(install(&resigned_envelope, &component(), accepted), "release.revoked");
    }
}

#[test]
fn retired_keys_verify_and_resigning_changes_only_envelope_identity() {
    let mut payload = trust_payload(1);
    payload["keys"][0]["state"] = Value::from("retired");
    payload["keys"].as_array_mut().unwrap().push(release_key("release-2", 4, "active"));
    let trust = trust(&payload, None).unwrap();
    let old = verify_release(&envelope(&release_payload()), &trust).unwrap();
    let mut payload = release_payload();
    payload["key"] = Value::from("release-2");
    let new = verify_release(&line(&key(4), "sloper.release", &payload), &trust).unwrap();
    assert_ne!(old.digest(), new.digest());
    assert_eq!(old.component_digest(), new.component_digest());
}

#[test]
fn expired_trust_allows_installed_release_but_rejects_new_installation() {
    let document = line(&key(1), "sloper.trust", &trust_payload(1));
    let trust = verify_trust(&document, INSTANT + 31 * DAY, None).unwrap();
    let release = verify_release(&envelope(&release_payload()), &trust).unwrap();
    trust.require_release(&release).unwrap();
    assert_code(trust.require_fresh(INSTANT), "trust.stale");
}

#[test]
fn trust_rejects_invalid_lifetimes_key_sets_and_revocation_order() {
    let weak = URL_SAFE_NO_PAD.encode([0u8; 32]);
    for changed in [
        "{\"expires\":\"2026-10-02T00:00:00Z\"}".to_owned(),
        "{\"issued\":\"2026-09-01T00:00:00+01:00\"}".to_owned(),
        format!("{{\"keys\":[{{\"id\":\"release-1\",\"public\":\"{weak}\",\"state\":\"active\"}}]}}"),
        "{\"revoked\":[{\"subject\":\"acme.z\",\"reason\":\"broken\"},{\"subject\":\"acme.a\",\"reason\":\"broken\"}]}"
            .to_owned(),
        "{\"revoked\":[{\"subject\":\"acme.a\",\"reason\":\"broken\"},{\"subject\":\"acme.a\",\"reason\":\"broken\"}]}"
            .to_owned(),
        "{\"revoked\":[{\"subject\":\"key:\",\"reason\":\"broken\"}]}".to_owned(),
        "{\"revoked\":[{\"subject\":\"acme.a\",\"reason\":\"other\"}]}".to_owned(),
    ] {
        let mut payload = trust_payload(1);
        for (field, value) in value(&changed).as_object().unwrap() {
            payload[field] = value.clone();
        }
        assert_code(trust(&payload, None), "trust.invalid");
    }
    let mut payload = trust_payload(1);
    payload["keys"] = Value::Array((0..65).map(|i| release_key(&format!("k{i}"), 3, "retired")).collect());
    assert_code(trust(&payload, None), "trust.invalid");
    payload["keys"].as_array_mut().unwrap().pop();
    trust(&payload, None).unwrap();
}

#[test]
fn roots_are_read_from_canonical_base64() {
    let first = URL_SAFE_NO_PAD.encode(public(&key(1)));
    let second = URL_SAFE_NO_PAD.encode(public(&key(2)));
    let roots = TrustRoots::from_base64(&first, &second).unwrap();
    let document = line(&key(1), "sloper.trust", &trust_payload(1));
    Trust::verify(&document, trust_claims(&document), &roots, INSTANT, None).unwrap();
    assert_code(TrustRoots::from_base64(&first, &first), "trust.invalid");
    assert_code(TrustRoots::from_base64(&first, "AAAA"), "trust.invalid");
    assert_code(TrustRoots::from_base64("not base64!", &second), "trust.invalid");
}

#[test]
fn unknown_release_keys_and_signatures_of_other_keys_are_refused() {
    let trust = trust(&trust_payload(1), None).unwrap();
    let mut payload = release_payload();
    payload["key"] = Value::from("release-9");
    assert_code(verify_release(&envelope(&payload), &trust), "release.key-unknown");
    assert_code(
        verify_release(&line(&key(4), "sloper.release", &release_payload()), &trust),
        "release.signature-invalid",
    );
}

#[test]
fn refused_manifests_are_undeclared_extensions() {
    let trust = trust(&trust_payload(1), None).unwrap();
    let signed = envelope(&release_payload());
    let finding = Finding {
        code: "MANIFEST_INVALID_VALUE".to_owned(),
        location: "actions".to_owned(),
        message: "Invalid.".to_owned(),
    };
    assert_code(
        admit_release(&signed, &component(), release_claims(&signed), Err(vec![finding]), &trust),
        "extension.undeclared",
    );
}

#[test]
fn verified_releases_are_reported_with_the_expiry_of_fresh_trust() {
    let document = line(&key(1), "sloper.trust", &trust_payload(1));
    let trust = fresh_trust(&document, trust_claims(&document), &roots(), INSTANT).ok().unwrap();
    let signed = envelope(&release_payload());
    let result =
        verify(&signed, &component(), release_claims(&signed), identity(), Ok(admitted()), &trust, INSTANT).ok().unwrap();
    assert_eq!(result.extension_id, "sloper.host-test");
    assert_eq!(result.version, "0.0.1");
    assert_eq!(result.publisher, "Acme");
    assert_eq!(result.release_envelope_id, hash(&signed));
    assert_eq!(result.key, "release-1");
    assert_eq!(result.manifest_digest, hash(MANIFEST));
    assert_eq!(result.component_digest, hash(&component()));
    assert_eq!(result.trust_expire_time, "2026-10-01T00:00:00Z");
    assert!(!result.trust_stale);
    let refused = verify(
        &signed,
        &component(),
        release_claims(&signed),
        identity(),
        Err(ExecutionError::Deadline),
        &trust,
        INSTANT,
    );
    assert_eq!(refused.map(|_| ()).unwrap_err().exit_code(), 3);
    let stale = fresh_trust(&document, trust_claims(&document), &roots(), INSTANT + 31 * DAY);
    assert_eq!(stale.map(|_| ()).unwrap_err().message(), "trust.stale");
}

#[test]
fn admitted_releases_keep_their_exact_bytes() {
    let document = line(&key(1), "sloper.trust", &trust_payload(1));
    let trust = fresh_trust(&document, trust_claims(&document), &roots(), INSTANT).ok().unwrap();
    let signed = envelope(&release_payload());
    let release = install(&signed, &component(), &trust).unwrap();
    let completed = complete_release(release, Ok(admitted())).unwrap();
    assert_eq!(completed.release().extension(), "sloper.host-test");
    assert_eq!(completed.component().component(), component());
    assert_eq!(completed.component().manifest_bytes(), MANIFEST);
    assert_eq!(completed.component().manifest().version, "0.0.1");
    let release = install(&signed, &component(), &trust).unwrap();
    let refused = complete_release(release, Err(ExecutionError::Trapped("start".to_owned())));
    assert!(matches!(refused, Err(ReleaseError::Admission(reason)) if reason == "extension trapped"));
}

#[test]
fn components_without_a_world_are_not_admitted() {
    let world = HostWorld { packages: Vec::new(), source: String::new() };
    let malformed = admit_component(b"malformed", Ok(manifest()), &world, Ok(()));
    assert!(matches!(malformed, Err(ExecutionError::Component(_))));
    let finding = Finding { code: "A".to_owned(), location: "/".to_owned(), message: "no".to_owned() };
    let refused = admit_component(&component(), Err(vec![finding]), &world, Ok(()));
    let Err(ExecutionError::Component(error)) = refused else { panic!("the manifest is refused") };
    assert_eq!(error.findings()[0].code, "A");
    let worldless = admit_component(&component(), Ok(manifest()), &world, Ok(()));
    assert!(matches!(worldless, Err(ExecutionError::Component(_))));
}

#[test]
fn times_and_segments_are_canonical() {
    assert_eq!(timestamp("2026-09-01T00:00:00Z"), Ok(INSTANT));
    assert_eq!(timestamp("2026-09-01T02:00:00+02:00"), Err(Malformed::Invalid(Reason::TimestampZone)));
    assert_eq!(timestamp("2026-09-01"), Err(Malformed::Invalid(Reason::Timestamp)));
    assert_eq!(utc_instant("Z", Some((7, true))), Ok(7));
    assert_eq!(utc_instant("z", Some((7, true))), Err(Malformed::Invalid(Reason::TimestampZone)));
    assert_eq!(utc_instant("Z", None), Err(Malformed::Invalid(Reason::Timestamp)));
    assert_eq!(decode("aGk"), Ok(b"hi".to_vec()));
    assert_eq!(decode("aGl"), Err(Malformed::Base64));
    assert_eq!(decode("aGk="), Err(Malformed::Invalid(Reason::Segment)));
    assert_eq!(decode(""), Err(Malformed::Invalid(Reason::Segment)));
    let decoded = |canonical: &str| Some((b"hi".to_vec(), canonical.to_owned()));
    assert_eq!(accept_segment("aGk", decoded("aGk")), Ok(b"hi".to_vec()));
    assert_eq!(accept_segment("aGl", decoded("aGk")), Err(Malformed::Invalid(Reason::Noncanonical)));
    assert_eq!(accept_segment("aGk", None), Err(Malformed::Base64));
}

#[test]
fn release_versions_are_canonical_and_without_build_metadata() {
    let claims = |version: &str| {
        let signed = envelope(&release_payload());
        ReleasePayload { version: version.to_owned(), ..release_claims(&signed).unwrap() }
    };
    assert_eq!(claims("1.2.3-rc.1").validate(), Ok(()));
    assert_eq!(claims("1.2.3+build").validate(), Err(Malformed::Invalid(Reason::Identity)));
    assert_eq!(claims("1.2").validate(), Err(Malformed::Invalid(Reason::Version)));
    let version = |text: &str, build: &str| SemanticVersion {
        major: 1,
        minor: 2,
        patch: 3,
        pre: String::new(),
        build: build.to_owned(),
        text: text.to_owned(),
    };
    assert_eq!(claims("1.2.3").validate_claims(Some(version("1.2.3", ""))), Ok(()));
    assert_eq!(
        claims("1.2.3").validate_claims(Some(version("1.2.4", ""))),
        Err(Malformed::Invalid(Reason::Identity))
    );
    assert_eq!(
        claims("1.2.3").validate_claims(Some(version("1.2.3", "b"))),
        Err(Malformed::Invalid(Reason::Identity))
    );
    assert_eq!(claims("1.2.3").validate_claims(None), Err(Malformed::Invalid(Reason::Version)));
}

#[test]
fn weak_keys_are_no_public_keys() {
    assert!(valid_public_key(key(1).public_key().as_ref()));
    assert!(!valid_public_key(&[0; 32]));
    assert!(!valid_public_key(&[1; 31]));
}

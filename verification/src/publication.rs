//! Publishing a component, and checking what the service answers.

use vstd::prelude::*;
use vstd::string::*;
use vstd::utf8::*;

use crate::admission::{complete_release, AdmittedComponent};
use crate::component::{extract_manifest, manifest_of, ComponentError};
use crate::host::ExecutionError;
use crate::identity::{digest, digest_of};
use crate::inputs::MAX_TOKEN_BYTES;
use crate::primitives::{
    absolute_url, base64url_decoded, decode_base64url, format_rfc3339, is_web_url, parse_url, rfc3339_text,
    url_origin, write_origin, ParsedUrl,
};
use crate::release::{
    admission_fault, admit_release, control, release_of, stale, trust_of, ParsedIdentity, Release, ReleaseClaim,
    ReleaseError, ReleasePayload, Trust, TrustPayload, TrustRoots, MAX_RELEASE_BYTES,
};
use crate::text::{
    byte_count, byte_len, chars_of, cut, cut_text, is_ascii_character, is_ascii_text, joined, lemma_cut,
    lemma_cut_at, same_bytes, same_text, trim_trailing, without_trailing,
};
use crate::tool::Error;

verus! {

/// Where extensions are published unless told otherwise.
pub const DEFAULT_API_URL: &'static str = "https://console.sloper.ai";

/// Who may use an extension, chosen with its first publication.
#[derive(Clone, Copy, Debug, PartialEq, Eq, Structural)]
pub enum Visibility {
    /// Only the publisher's owner.
    Private,
    /// Every authenticated user; reserved to Sloper publishers.
    Public,
}

impl Visibility {
    /// The word for this audience in a publication request.
    pub open spec fn text_spec(self) -> Seq<char> {
        match self {
            Visibility::Private => "private"@,
            Visibility::Public => "public"@,
        }
    }

    /// Returns the word for this audience in a publication request.
    pub fn as_str(self) -> (text: &'static str)
        ensures
            text@ == self.text_spec(),
    {
        match self {
            Visibility::Private => "private",
            Visibility::Public => "public",
        }
    }
}

/// What to publish, where and for whom.
pub struct PublishOptions<'a> {
    /// The directory that holds `dist/extension.wasm` and maybe `dist/icon.png`.
    pub directory: &'a str,
    /// The endpoint that the caller trusts.
    pub api_url: &'a str,
    /// The bearer that may publish.
    pub token: &'a str,
    /// The audience; none keeps the one there is, or the service's own choice.
    pub visibility: Option<Visibility>,
}

impl PublishOptions<'_> {
    /// What a diagnostic shows of the options: the audience, never the bearer.
    pub open spec fn debug_spec(&self) -> Seq<char> {
        match self.visibility {
            None => "PublishOptions { visibility: None, .. }"@,
            Some(Visibility::Private) => "PublishOptions { visibility: Some(Private), .. }"@,
            Some(Visibility::Public) => "PublishOptions { visibility: Some(Public), .. }"@,
        }
    }

    /// Returns what a diagnostic shows of the options.
    pub fn debug_text(&self) -> (text: &'static str)
        ensures
            text@ == self.debug_spec(),
    {
        match self.visibility {
            None => "PublishOptions { visibility: None, .. }",
            Some(Visibility::Private) => "PublishOptions { visibility: Some(Private), .. }",
            Some(Visibility::Public) => "PublishOptions { visibility: Some(Public), .. }",
        }
    }
}

/// Options that differ in the bearer alone look alike in a diagnostic.
pub proof fn law_diagnostics_hide_the_bearer(options: PublishOptions<'_>, others: PublishOptions<'_>)
    requires
        options.visibility == others.visibility,
    ensures
        options.debug_spec() == others.debug_spec(),
{
}

/// A bearer that an HTTP header can carry: not empty, bounded, no control characters.
pub open spec fn is_bearer(token: Seq<char>) -> bool {
    &&& token.len() > 0
    &&& byte_count(token) <= MAX_TOKEN_BYTES
    &&& forall|index: int| 0 <= index < token.len() ==> !control(#[trigger] token[index])
}

/// Whether `token` is a bearer that an HTTP header can carry.
pub fn valid_bearer(token: &str) -> (valid: bool)
    ensures
        valid == is_bearer(token@),
{
    let characters = chars_of(token);
    if characters.len() == 0 || byte_len(token) > MAX_TOKEN_BYTES {
        return false;
    }
    let mut index: usize = 0;
    while index < characters.len()
        invariant
            index <= characters.len(),
            characters@ == token@,
            forall|i: int| 0 <= i < index ==> !control(#[trigger] token@[i]),
        decreases characters.len() - index,
    {
        let character = characters[index];
        if character <= '\u{1f}' || ('\u{7f}' <= character && character <= '\u{9f}') {
            assert(control(token@[index as int]));
            return false;
        }
        index += 1;
    }
    true
}

/// The origin of an absolute HTTP or HTTPS URL.
pub open spec fn origin_of(api_url: Seq<char>) -> Option<Seq<char>> {
    if is_web_url(absolute_url(api_url)) {
        Some(url_origin(api_url))
    } else {
        None
    }
}

/// Whether a URL that reads so is one that requests can go to.
pub fn is_service(url: &Option<ParsedUrl>) -> (service: bool)
    ensures
        service == is_web_url(
            match url {
                Some(url) => Some(url@),
                None => None,
            },
        ),
{
    match url {
        Some(url) => (same_text(url.scheme.as_str(), "http") || same_text(url.scheme.as_str(), "https"))
            && url.has_host,
        None => false,
    }
}

/// Returns the origin of the service at `api_url`.
pub fn api_origin(api_url: &str) -> (origin: Result<String, Error>)
    ensures
        match origin_of(api_url@) {
            Some(expected) => origin matches Ok(origin) && origin@ == expected,
            None => origin matches Err(Error::Usage(message)) && message@
                == "API URL must be an absolute HTTP or HTTPS URL"@,
        },
{
    if is_service(&parse_url(api_url)) {
        Ok(write_origin(api_url))
    } else {
        Err(Error::Usage("API URL must be an absolute HTTP or HTTPS URL".to_owned()))
    }
}

/// Where requests go.
pub struct Endpoint {
    /// The value of the origin header.
    pub origin: String,
    /// What the path of every request starts with.
    pub base: String,
}

/// Decides where the requests of a bearer go.
pub fn endpoint(api_url: &str, token: &str) -> (endpoint: Result<Endpoint, Error>)
    ensures
        if !is_bearer(token@) {
            endpoint matches Err(Error::Usage(message)) && message@
                == "publishing token must be a nonempty, bounded HTTP bearer"@
        } else {
            match origin_of(api_url@) {
                None => endpoint matches Err(Error::Usage(message)) && message@
                    == "API URL must be an absolute HTTP or HTTPS URL"@,
                Some(origin) => endpoint matches Ok(endpoint) && endpoint.origin@ == origin && endpoint.base@
                    == without_trailing(api_url@, '/') + "/api/v1"@,
            }
        },
{
    if !valid_bearer(token) {
        return Err(Error::Usage("publishing token must be a nonempty, bounded HTTP bearer".to_owned()));
    }
    let origin = match api_origin(api_url) {
        Ok(origin) => origin,
        Err(error) => return Err(error),
    };
    Ok(Endpoint { origin, base: joined(trim_trailing(api_url, '/').as_str(), "/api/v1") })
}

/// What a request is identified by: the component, the icon and the audience, each
/// as far as it is there.
pub open spec fn request_bytes(component: Seq<u8>, icon: Option<Seq<u8>>, visibility: Option<Visibility>) -> Seq<u8> {
    let pictured = match icon {
        Some(icon) => component + icon,
        None => component,
    };
    match visibility {
        Some(visibility) => pictured + encode_utf8(visibility.text_spec()),
        None => pictured,
    }
}

/// The audience is part of what a request is identified by: one that asks for another
/// audience is never taken for a repetition.
pub proof fn law_audience_changes_the_request(
    component: Seq<u8>,
    icon: Option<Seq<u8>>,
    first: Option<Visibility>,
    second: Option<Visibility>,
)
    requires
        first != second,
    ensures
        request_bytes(component, icon, first) != request_bytes(component, icon, second),
{
    reveal_strlit("private");
    reveal_strlit("public");
    is_ascii_chars_encode_utf8("private"@);
    is_ascii_chars_encode_utf8("public"@);
    assert(request_bytes(component, icon, first).len() != request_bytes(component, icon, second).len());
}

/// Writes what a request is identified by.
pub fn write_request(component: &[u8], icon: &Option<Vec<u8>>, visibility: Option<Visibility>) -> (bytes: Vec<u8>)
    ensures
        bytes@ == request_bytes(
            component@,
            match icon {
                Some(icon) => Some(icon@),
                None => None,
            },
            visibility,
        ),
{
    let mut bytes: Vec<u8> = Vec::new();
    bytes.extend_from_slice(component);
    assert(bytes@ =~= component@);
    if let Some(icon) = icon {
        bytes.extend_from_slice(icon.as_slice());
        assert(bytes@ =~= component@ + icon@);
    }
    if let Some(visibility) = visibility {
        let ghost before = bytes@;
        bytes.extend_from_slice(visibility.as_str().as_bytes());
        assert(bytes@ =~= before + encode_utf8(visibility.text_spec()));
    }
    bytes
}

/// Returns the key that makes repeating a request harmless.
pub fn request_id(component: &[u8], icon: &Option<Vec<u8>>, visibility: Option<Visibility>) -> (id: String)
    ensures
        id@ == digest_of(
            request_bytes(
                component@,
                match icon {
                    Some(icon) => Some(icon@),
                    None => None,
                },
                visibility,
            ),
        ),
{
    digest(write_request(component, icon, visibility).as_slice())
}

/// A component about to be published, with what the receipt has to match.
pub struct Upload {
    /// The name that the manifest declares.
    pub extension: String,
    /// The version that the manifest declares.
    pub version: String,
    /// The key that makes repeating the request harmless.
    pub request_id: String,
    pub component_digest: String,
    pub component_length: u64,
    pub manifest_digest: String,
    /// The exact embedded manifest.
    pub manifest: Vec<u8>,
}

/// Prepares a publication. `identity` is the name and version that a component's
/// validated manifest declares, or why the component is no valid extension.
pub fn prepare_upload(
    component: &[u8],
    identity: Result<(String, String), ComponentError>,
    icon: &Option<Vec<u8>>,
    visibility: Option<Visibility>,
) -> (upload: Result<Upload, Error>)
    ensures
        match identity {
            Err(error) => upload == Err::<Upload, _>(Error::Component(error)),
            Ok((name, version)) => match manifest_of(component@) {
                Err(rejection) => upload == Err::<Upload, _>(Error::Component(ComponentError::Rejected(rejection))),
                Ok(manifest) => {
                    &&& upload matches Ok(upload)
                    &&& upload.extension == name
                    &&& upload.version == version
                    &&& upload.request_id@ == digest_of(
                        request_bytes(
                            component@,
                            match icon {
                                Some(icon) => Some(icon@),
                                None => None,
                            },
                            visibility,
                        ),
                    )
                    &&& upload.component_digest@ == digest_of(component@)
                    &&& upload.component_length == component@.len()
                    &&& upload.manifest_digest@ == digest_of(manifest)
                    &&& upload.manifest@ == manifest
                },
            },
        },
{
    let (extension, version) = match identity {
        Ok(identity) => identity,
        Err(error) => return Err(Error::Component(error)),
    };
    let embedded = match extract_manifest(component) {
        Ok(embedded) => embedded,
        Err(error) => return Err(Error::Component(error)),
    };
    let mut manifest: Vec<u8> = Vec::new();
    manifest.extend_from_slice(embedded);
    assert(manifest@ =~= embedded@);
    Ok(
        Upload {
            extension,
            version,
            request_id: request_id(component, icon, visibility),
            component_digest: digest(component),
            component_length: component.len() as u64,
            manifest_digest: digest(embedded),
            manifest,
        },
    )
}

/// A published version as the service describes it.
#[derive(Debug)]
pub struct ExtensionVersion {
    pub extension_id: String,
    pub version: String,
    pub release_envelope_id: String,
}

/// A release envelope as the service hands it out.
#[derive(Debug)]
pub struct ReleaseEnvelope {
    pub id: String,
    pub extension_id: String,
    pub version: String,
    /// The name of the publisher.
    pub publisher: String,
    /// The digest of the component.
    pub component_sha256: String,
    /// The length of the component.
    pub component_bytes: i64,
    pub manifest: String,
    /// The signed line.
    pub envelope: String,
}

/// A published version and the release envelope that matches it.
#[derive(Debug)]
pub struct PublishResult {
    pub version: ExtensionVersion,
    pub envelope: ReleaseEnvelope,
}

/// Accepts the version that the service answers an upload with.
pub fn accept_version(upload: &Upload, answer: Option<ExtensionVersion>) -> (version: Result<ExtensionVersion, Error>)
    ensures
        match answer {
            None => version matches Err(Error::InvalidResponse(message)) && message@
                == "The publication service returned no extension version"@,
            Some(published) => if published.extension_id@ == upload.extension@ && published.version@
                == upload.version@ {
                version == Ok::<_, Error>(published)
            } else {
                version matches Err(Error::InvalidResponse(message)) && message@
                    == "The published identity differs from the uploaded component"@
            },
        },
{
    match answer {
        None => Err(Error::InvalidResponse("The publication service returned no extension version".to_owned())),
        Some(published) => {
            if !same_text(published.extension_id.as_str(), upload.extension.as_str()) || !same_text(
                published.version.as_str(),
                upload.version.as_str(),
            ) {
                return Err(
                    Error::InvalidResponse("The published identity differs from the uploaded component".to_owned()),
                );
            }
            Ok(published)
        },
    }
}

/// The payload bytes and the signature bytes of a bounded ASCII line.
pub open spec fn receipt_parts(line: Seq<char>) -> Option<(Seq<u8>, Seq<u8>)> {
    if line.len() == 0 || line.len() > MAX_RELEASE_BYTES || exists|index: int|
        0 <= index < line.len() && !is_ascii_character(#[trigger] line[index]) {
        None
    } else {
        match cut(line, '.') {
            None => None,
            Some((payload, signature)) => match (base64url_decoded(payload), base64url_decoded(signature)) {
                (Some(payload), Some(signature)) => Some((payload, signature)),
                _ => None,
            },
        }
    }
}

/// Decodes the payload and the signature of a bounded ASCII line.
pub fn decode_receipt(line: &str) -> (parts: Option<(Vec<u8>, Vec<u8>)>)
    ensures
        match parts {
            Some((payload, signature)) => receipt_parts(line@) == Some((payload@, signature@)),
            None => receipt_parts(line@) is None,
        },
{
    let characters = chars_of(line);
    if characters.len() == 0 || characters.len() > MAX_RELEASE_BYTES {
        return None;
    }
    let mut index: usize = 0;
    while index < characters.len()
        invariant
            index <= characters.len(),
            characters@ == line@,
            forall|i: int| 0 <= i < index ==> is_ascii_character(#[trigger] line@[i]),
        decreases characters.len() - index,
    {
        if characters[index] > '\u{7f}' {
            assert(!is_ascii_character(line@[index as int]));
            return None;
        }
        index += 1;
    }
    let (payload, signature) = match cut_text(line, '.') {
        Some(parts) => parts,
        None => return None,
    };
    match (decode_base64url(payload.as_str()), decode_base64url(signature.as_str())) {
        (Some(payload), Some(signature)) => Some((payload, signature)),
        _ => None,
    }
}

/// A receipt is for the exact bytes that were uploaded: `signature` is what its line
/// carries, where it is well formed, and `digest` the digest of the line.
pub open spec fn receipt_agrees(
    signature: Option<Seq<u8>>,
    digest: Seq<char>,
    version: ExtensionVersion,
    envelope: ReleaseEnvelope,
    upload: Upload,
    claim: Option<ReleaseClaim>,
) -> bool {
    match (signature, claim) {
        (Some(signature), Some(claim)) => {
            &&& signature.len() == 64
            &&& claim.key.len() > 0
            &&& claim.publisher == envelope.publisher@
            &&& claim.extension == version.extension_id@
            &&& claim.version == version.version@
            &&& envelope.extension_id@ == version.extension_id@
            &&& envelope.version@ == version.version@
            &&& envelope.id@ == version.release_envelope_id@
            &&& digest == envelope.id@
            &&& claim.component.digest == upload.component_digest@
            &&& claim.component.bytes == upload.component_length
            &&& envelope.component_sha256@ == upload.component_digest@
            &&& envelope.component_bytes == upload.component_length
            &&& claim.manifest.digest == upload.manifest_digest@
            &&& claim.manifest.bytes == upload.manifest@.len()
            &&& encode_utf8(envelope.manifest@) == upload.manifest@
        },
        _ => false,
    }
}

/// Whether a receipt is for the exact bytes that were uploaded. `signature` is what its
/// line carries, where it is well formed, and `digest` the digest of the line.
pub fn check_receipt(
    signature: Option<Vec<u8>>,
    digest: &str,
    version: &ExtensionVersion,
    envelope: &ReleaseEnvelope,
    upload: &Upload,
    payload: &Option<ReleasePayload>,
) -> (agrees: bool)
    ensures
        agrees == receipt_agrees(
            match signature {
                Some(signature) => Some(signature@),
                None => None,
            },
            digest@,
            *version,
            *envelope,
            *upload,
            match payload {
                Some(payload) => Some(payload@),
                None => None,
            },
        ),
{
    let (signature, payload) = match (signature, payload) {
        (Some(signature), Some(payload)) => (signature, payload),
        _ => return false,
    };
    signature.len() == 64 && !payload.key.as_str().is_empty() && same_text(
        payload.publisher.as_str(),
        envelope.publisher.as_str(),
    ) && same_text(payload.extension.as_str(), version.extension_id.as_str()) && same_text(
        payload.version.as_str(),
        version.version.as_str(),
    ) && same_text(envelope.extension_id.as_str(), version.extension_id.as_str()) && same_text(
        envelope.version.as_str(),
        version.version.as_str(),
    ) && same_text(envelope.id.as_str(), version.release_envelope_id.as_str()) && same_text(
        digest,
        envelope.id.as_str(),
    ) && same_text(payload.component.digest.as_str(), upload.component_digest.as_str()) && payload.component.bytes
        == upload.component_length && same_text(
        envelope.component_sha256.as_str(),
        upload.component_digest.as_str(),
    ) && envelope.component_bytes >= 0 && envelope.component_bytes as u64 == upload.component_length && same_text(
        payload.manifest.digest.as_str(),
        upload.manifest_digest.as_str(),
    ) && payload.manifest.bytes == upload.manifest.len() as u64 && same_bytes(
        envelope.manifest.as_str().as_bytes(),
        upload.manifest.as_slice(),
    )
}

/// The receipt matches the exact bytes that were uploaded.
pub open spec fn receipt_matches(
    version: ExtensionVersion,
    envelope: ReleaseEnvelope,
    upload: Upload,
    claim: Option<ReleaseClaim>,
) -> bool {
    receipt_agrees(
        match receipt_parts(envelope.envelope@) {
            Some((_, signature)) => Some(signature),
            None => None,
        },
        digest_of(encode_utf8(envelope.envelope@)),
        version,
        envelope,
        upload,
        claim,
    )
}

/// Checks that a receipt matches the exact bytes that were uploaded. `payload` is
/// what the JSON decoder makes of the payload bytes of the envelope.
pub fn verify_receipt(
    version: &ExtensionVersion,
    envelope: &ReleaseEnvelope,
    upload: &Upload,
    payload: &Option<ReleasePayload>,
) -> (verified: Result<(), Error>)
    ensures
        if receipt_matches(
            *version,
            *envelope,
            *upload,
            match payload {
                Some(payload) => Some(payload@),
                None => None,
            },
        ) {
            verified == Ok::<(), Error>(())
        } else {
            verified matches Err(Error::InvalidResponse(message)) && message@
                == "The release receipt does not match the exact submitted bytes"@
        },
{
    let signature = match decode_receipt(envelope.envelope.as_str()) {
        Some((_, signature)) => Some(signature),
        None => None,
    };
    let line_digest = digest(envelope.envelope.as_str().as_bytes());
    if check_receipt(signature, line_digest.as_str(), version, envelope, upload, payload) {
        Ok(())
    } else {
        Err(Error::InvalidResponse("The release receipt does not match the exact submitted bytes".to_owned()))
    }
}

/// Accepts the release envelope that the service answers a published version with.
/// `payload` is what the JSON decoder makes of the payload bytes of the envelope.
pub fn accept_envelope(
    upload: &Upload,
    version: ExtensionVersion,
    answer: Option<ReleaseEnvelope>,
    payload: &Option<ReleasePayload>,
) -> (result: Result<PublishResult, Error>)
    ensures
        match answer {
            None => result matches Err(Error::InvalidResponse(message)) && message@
                == "The publication service returned no release envelope"@,
            Some(envelope) => if receipt_matches(
                version,
                envelope,
                *upload,
                match payload {
                    Some(payload) => Some(payload@),
                    None => None,
                },
            ) {
                result == Ok::<_, Error>(PublishResult { version, envelope })
            } else {
                result matches Err(Error::InvalidResponse(message)) && message@
                    == "The release receipt does not match the exact submitted bytes"@
            },
        },
{
    let envelope = match answer {
        Some(envelope) => envelope,
        None => return Err(
            Error::InvalidResponse("The publication service returned no release envelope".to_owned()),
        ),
    };
    match verify_receipt(&version, &envelope, upload, payload) {
        Ok(_) => {},
        Err(error) => return Err(error),
    }
    Ok(PublishResult { version, envelope })
}

/// A receipt that matches two uploads was given for the same bytes: their lengths,
/// digests and manifests are the same.
pub proof fn law_receipt_fixes_the_upload(
    version: ExtensionVersion,
    envelope: ReleaseEnvelope,
    claim: ReleaseClaim,
    first: Upload,
    second: Upload,
)
    requires
        receipt_matches(version, envelope, first, Some(claim)),
        receipt_matches(version, envelope, second, Some(claim)),
    ensures
        first.component_digest@ == second.component_digest@,
        first.component_length == second.component_length,
        first.manifest_digest@ == second.manifest_digest@,
        first.manifest@ == second.manifest@,
{
}

/// Where the parts of a release stand, and the roots to check them with.
pub struct VerifyOptions<'a> {
    /// The directory that holds `dist/extension.wasm`.
    pub directory: &'a str,
    /// The file of the exact signed release line.
    pub envelope: &'a str,
    /// The file of the signed trust document.
    pub trust: &'a str,
    /// Roots that the caller got by another way.
    pub roots: &'a TrustRoots,
}

/// An authentic release that the local runtime admits.
#[derive(Debug)]
pub struct VerifyResult {
    pub extension_id: String,
    pub version: String,
    pub publisher: String,
    /// The digest of the exact signed line.
    pub release_envelope_id: String,
    /// The key that signed the release.
    pub key: String,
    pub manifest_digest: String,
    pub component_digest: String,
    /// When the trust document expires, as an RFC 3339 text.
    pub trust_expire_time: String,
    /// The trust document is not fresh.
    pub trust_stale: bool,
}

/// Authenticates a trust document and requires it to be fresh.
///
/// `payload` is what the JSON decoder makes of the document's payload bytes.
pub fn fresh_trust(
    document: &[u8],
    payload: Option<TrustPayload>,
    roots: &TrustRoots,
    now: i128,
) -> (trust: Result<Trust, Error>)
    ensures
        match trust_of(
            document@,
            match payload {
                Some(payload) => Some(payload@),
                None => None,
            },
            roots@,
            now,
            None,
        ) {
            Err(error) => trust == Err::<Trust, _>(Error::Release(error)),
            Ok(expected) => if stale(expected, now) {
                trust == Err::<Trust, _>(Error::Release(ReleaseError::TrustStale))
            } else {
                trust matches Ok(trust) && trust.wf() && trust@ == expected
            },
        },
{
    let trust = match Trust::verify(document, payload, roots, now, None) {
        Ok(trust) => trust,
        Err(error) => return Err(Error::Release(error)),
    };
    match trust.require_fresh(now) {
        Ok(_) => Ok(trust),
        Err(error) => Err(Error::Release(error)),
    }
}

/// Authenticates a release, and reports on it.
///
/// `payload` is what the JSON decoder makes of the envelope's payload bytes,
/// `manifest` what the manifest parser makes of the embedded manifest, and
/// `admission` what became of admitting the component to the host.
pub fn verify(
    envelope: &[u8],
    component: &[u8],
    payload: Option<ReleasePayload>,
    manifest: ParsedIdentity,
    admission: Result<AdmittedComponent, ExecutionError>,
    trust: &Trust,
    now: i128,
) -> (result: Result<VerifyResult, Error>)
    requires
        trust.wf(),
    ensures
        if envelope@.len() == 0 {
            result == Err::<VerifyResult, _>(Error::Release(ReleaseError::Unsigned))
        } else {
            match release_of(
                envelope@,
                match payload {
                    Some(payload) => Some(payload@),
                    None => None,
                },
                trust@,
            ) {
                Err(error) => result == Err::<VerifyResult, _>(Error::Release(error)),
                Ok(release) => match admission_fault(release, component@, manifest, trust@) {
                    Some(error) => result == Err::<VerifyResult, _>(Error::Release(error)),
                    None => match admission {
                        Err(error) => result matches Err(Error::Release(ReleaseError::Admission(reason))) && reason@
                            == error.message_spec(),
                        Ok(_) => match rfc3339_text(trust@.expires_at) {
                            None => result matches Err(Error::InvalidResponse(message)) && message@
                                == "trust expiry cannot be encoded"@,
                            Some(expiry) => {
                                &&& result matches Ok(result)
                                &&& result.extension_id@ == release.claim.extension
                                &&& result.version@ == release.claim.version
                                &&& result.publisher@ == release.claim.publisher
                                &&& result.release_envelope_id@ == release.digest
                                &&& result.key@ == release.claim.key
                                &&& result.manifest_digest@ == release.claim.manifest.digest
                                &&& result.component_digest@ == release.claim.component.digest
                                &&& result.trust_expire_time@ == expiry
                                &&& result.trust_stale == stale(trust@, now)
                            },
                        },
                    },
                },
            }
        },
{
    let release = match admit_release(envelope, component, payload, manifest, trust) {
        Ok(release) => release,
        Err(error) => return Err(Error::Release(error)),
    };
    let admitted = match complete_release(release, admission) {
        Ok(admitted) => admitted,
        Err(error) => return Err(Error::Release(error)),
    };
    let release = admitted.release();
    let trust_expire_time = match format_rfc3339(trust.expires_at()) {
        Some(text) => text,
        None => return Err(Error::InvalidResponse("trust expiry cannot be encoded".to_owned())),
    };
    Ok(
        VerifyResult {
            extension_id: release.extension().to_owned(),
            version: release.version().to_owned(),
            publisher: release.publisher().to_owned(),
            release_envelope_id: release.digest().to_owned(),
            key: release.key().to_owned(),
            manifest_digest: release.manifest_digest().to_owned(),
            component_digest: release.component_digest().to_owned(),
            trust_expire_time,
            trust_stale: trust.is_stale(now),
        },
    )
}

/// A bearer is one through 16384 bytes without a control character of either range.
pub proof fn law_bearers(token: Seq<char>)
    ensures
        is_bearer(token) <==> {
            &&& token.len() > 0
            &&& byte_count(token) <= 16_384
            &&& forall|i: int|
                0 <= i < token.len() ==> ' ' <= #[trigger] token[i] && !('\u{7f}' <= token[i] && token[i] <= '\u{9f}')
        },
{
    assert forall|i: int| 0 <= i < token.len() implies control(#[trigger] token[i]) == !(' ' <= token[i] && !('\u{7f}'
        <= token[i] && token[i] <= '\u{9f}')) by {}
}

/// A request is told apart by the bytes of its component, then of its icon, then by its
/// audience: each stands whole in what identifies it.
pub proof fn law_requests_are_told_apart(
    component: Seq<u8>,
    icon: Seq<u8>,
    other: Seq<u8>,
    visibility: Option<Visibility>,
)
    ensures
        component.is_prefix_of(request_bytes(component, Some(icon), visibility)),
        component.is_prefix_of(request_bytes(component, None, visibility)),
        request_bytes(component, None, None) == component,
        request_bytes(component, Some(icon), None) == component + icon,
        request_bytes(component, Some(icon), visibility) == request_bytes(component + icon, None, visibility),
        request_bytes(component, Some(icon), visibility) == request_bytes(component, Some(other), visibility) ==> icon
            == other,
        request_bytes(component, Some(Seq::empty()), visibility) == request_bytes(component, None, visibility),
{
    assert(component + Seq::<u8>::empty() =~= component);
    let left = request_bytes(component, Some(icon), visibility);
    let right = request_bytes(component, Some(other), visibility);
    if left == right {
        assert(icon =~= left.subrange(component.len() as int, (component.len() + icon.len()) as int));
        assert(other =~= right.subrange(component.len() as int, (component.len() + other.len()) as int));
    }
}

/// A receipt is a line of at most 16384 ASCII characters with a dot between its payload and
/// its signature, both of which decode.
pub proof fn law_receipt_lines(payload: Seq<char>, signature: Seq<char>)
    requires
        !payload.contains('.'),
    ensures
        ({
            let line = payload + seq!['.'] + signature;
            let bounded = line.len() <= 16_384 && is_ascii_text(line);
            &&& receipt_parts(line) is Some <==> bounded && base64url_decoded(payload) is Some && base64url_decoded(
                signature,
            ) is Some
            &&& receipt_parts(line) matches Some(parts) ==> Some(parts.0) == base64url_decoded(payload) && Some(parts.1)
                == base64url_decoded(signature)
        }),
        receipt_parts(payload) is None,
{
    let line = payload + seq!['.'] + signature;
    lemma_cut(payload, '.');
    if let Some((before, behind)) = cut(payload, '.') {
        assert(payload[before.len() as int] == '.');
    }
    assert forall|i: int| 0 <= i < payload.len() implies line[i] != '.' by {
        assert(line[i] == payload[i]);
    }
    assert(line[payload.len() as int] == '.');
    lemma_cut_at(line, '.', payload.len() as int);
    assert(line.take(payload.len() as int) =~= payload);
    assert(line.skip(payload.len() as int + 1) =~= signature);
}

/// An accepted receipt is signed, names its key, and says of the release exactly what was
/// uploaded and what the service recorded: the extension, its version and its publisher, the
/// component and the manifest.
pub proof fn law_receipts_say_what_was_uploaded(
    signature: Seq<u8>,
    digest: Seq<char>,
    version: ExtensionVersion,
    envelope: ReleaseEnvelope,
    upload: Upload,
    claim: ReleaseClaim,
)
    ensures
        receipt_agrees(Some(signature), digest, version, envelope, upload, Some(claim)) <==> {
            &&& signature.len() == 64 && claim.key.len() > 0
            &&& digest == envelope.id@ && digest == version.release_envelope_id@
            &&& claim.publisher == envelope.publisher@
            &&& claim.extension == envelope.extension_id@ && claim.extension == version.extension_id@
            &&& claim.version == envelope.version@ && claim.version == version.version@
            &&& claim.component.digest == upload.component_digest@ && claim.component.digest
                == envelope.component_sha256@
            &&& claim.component.bytes == upload.component_length && claim.component.bytes == envelope.component_bytes
            &&& claim.manifest.digest == upload.manifest_digest@ && claim.manifest.bytes == upload.manifest@.len()
            &&& upload.manifest@ == encode_utf8(envelope.manifest@)
        },
        !receipt_agrees(None, digest, version, envelope, upload, Some(claim)),
        !receipt_agrees(Some(signature), digest, version, envelope, upload, None),
{
}

/// Each audience has a word of its own.
pub proof fn law_words_for_audiences(visibility: Visibility)
    ensures
        visibility is Private <==> visibility.text_spec() == seq!['p', 'r', 'i', 'v', 'a', 't', 'e'],
        visibility is Public <==> visibility.text_spec() == seq!['p', 'u', 'b', 'l', 'i', 'c'],
{
    reveal_strlit("private");
    reveal_strlit("public");
    assert("private"@ =~= seq!['p', 'r', 'i', 'v', 'a', 't', 'e']);
    assert("public"@ =~= seq!['p', 'u', 'b', 'l', 'i', 'c']);
    assert("private"@.len() == 7 && "public"@.len() == 6);
}

/// An API has an origin exactly where its URL leads to the web.
pub proof fn law_origins(api_url: Seq<char>)
    ensures
        origin_of(api_url) is Some <==> is_web_url(absolute_url(api_url)),
        origin_of(api_url) matches Some(origin) ==> origin == url_origin(api_url),
{
}

} // verus!

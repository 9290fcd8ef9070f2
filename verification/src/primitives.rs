//! Hashes, signatures, encodings, versions and times that other crates compute.

use vstd::prelude::*;
use vstd::string::*;

use crate::identity::hex_character;

verus! {

/// The SHA-256 hash of the bytes.
pub uninterp spec fn sha256_of(bytes: Seq<u8>) -> Seq<u8>;

/// Hashes `bytes` with `sha2::Sha256::digest`, which returns the 32 bytes of
/// their SHA-256 hash.
#[verifier::external_body]
pub(crate) fn sha256(bytes: &[u8]) -> (hash: Vec<u8>)
    ensures
        hash@ == sha256_of(bytes@),
        hash@.len() == 32,
{
    <sha2::Sha256 as sha2::Digest>::digest(bytes).to_vec()
}

/// What unpadded base64url decoding makes of a text; `None` where it refuses it.
pub uninterp spec fn base64url_decoded(text: Seq<char>) -> Option<Seq<u8>>;

/// The unpadded base64url encoding of the bytes.
pub uninterp spec fn base64url_encoded(bytes: Seq<u8>) -> Seq<char>;

/// Decodes `text` with `decode` of base64's `URL_SAFE_NO_PAD` engine. What comes
/// back depends on the text alone.
#[verifier::external_body]
pub(crate) fn decode_base64url(text: &str) -> (bytes: Option<Vec<u8>>)
    ensures
        match bytes {
            Some(bytes) => base64url_decoded(text@) == Some(bytes@),
            None => base64url_decoded(text@) is None,
        },
{
    base64::Engine::decode(&base64::engine::general_purpose::URL_SAFE_NO_PAD, text).ok()
}

/// Encodes `bytes` with `encode` of base64's `URL_SAFE_NO_PAD` engine. Decoding
/// the text with the same engine gives the bytes back.
#[verifier::external_body]
pub(crate) fn encode_base64url(bytes: &[u8]) -> (text: String)
    ensures
        text@ == base64url_encoded(bytes@),
        base64url_decoded(text@) == Some(bytes@),
{
    base64::Engine::encode(&base64::engine::general_purpose::URL_SAFE_NO_PAD, bytes)
}

/// Ed25519 accepts the signature on the message under the public key.
pub uninterp spec fn ed25519_accepts(key: Seq<u8>, message: Seq<u8>, signature: Seq<u8>) -> bool;

/// Verifies a signature with `verify` of aws-lc-rs's `UnparsedPublicKey` for
/// `ED25519`. Its verdict depends on key, message and signature alone.
#[verifier::external_body]
pub(crate) fn verify_ed25519(key: &[u8], message: &[u8], signature: &[u8]) -> (accepted: bool)
    ensures
        accepted == ed25519_accepts(key@, message@, signature@),
{
    aws_lc_rs::signature::UnparsedPublicKey::new(&aws_lc_rs::signature::ED25519, key)
        .verify(message, signature)
        .is_ok()
}

/// Whether the 32 bytes of an Ed25519 public key are a weak key; `None` where
/// they are no key.
pub uninterp spec fn ed25519_weakness(key: Seq<u8>) -> Option<bool>;

/// Reads a public key with `from_bytes` of ed25519-dalek's `VerifyingKey` and asks
/// `is_weak` of it. What comes back depends on the bytes alone.
#[verifier::external_body]
pub(crate) fn key_weakness(key: &[u8]) -> (weak: Option<bool>)
    requires
        key@.len() == 32,
    ensures
        weak == ed25519_weakness(key@),
{
    let key = <&[u8; 32]>::try_from(key).ok()?;
    ed25519_dalek::VerifyingKey::from_bytes(key).ok().map(|key| key.is_weak())
}

/// A semantic version.
pub struct SemanticVersion {
    pub major: u64,
    pub minor: u64,
    pub patch: u64,
    /// What stands behind the hyphen.
    pub pre: String,
    /// What stands behind the plus sign.
    pub build: String,
    /// The version written out.
    pub text: String,
}

/// What a semantic version is.
pub ghost struct SemanticVersionView {
    pub major: u64,
    pub minor: u64,
    pub patch: u64,
    pub pre: Seq<char>,
    pub build: Seq<char>,
    pub text: Seq<char>,
}

impl View for SemanticVersion {
    type V = SemanticVersionView;

    open spec fn view(&self) -> SemanticVersionView {
        SemanticVersionView {
            major: self.major,
            minor: self.minor,
            patch: self.patch,
            pre: self.pre@,
            build: self.build@,
            text: self.text@,
        }
    }
}

/// What a version that was read is, where one was.
pub open spec fn version_view(version: Option<SemanticVersion>) -> Option<SemanticVersionView> {
    match version {
        Some(version) => Some(version@),
        None => None,
    }
}

/// The semantic version that a text denotes; `None` where it denotes none.
pub uninterp spec fn semantic_version(text: Seq<char>) -> Option<SemanticVersionView>;

/// Reads a version with `parse` of semver's `Version`. What comes back depends on
/// the text alone.
#[verifier::external_body]
pub(crate) fn parse_version(text: &str) -> (version: Option<SemanticVersion>)
    ensures
        match version {
            Some(version) => semantic_version(text@) == Some(version@),
            None => semantic_version(text@) is None,
        },
{
    semver::Version::parse(text).ok().map(|version| SemanticVersion {
        major: version.major,
        minor: version.minor,
        patch: version.patch,
        pre: version.pre.to_string(),
        build: version.build.to_string(),
        text: version.to_string(),
    })
}

/// The instant that an RFC 3339 text denotes, in nanoseconds since the start of
/// 1970, and whether it is written in UTC; `None` where it denotes none.
pub uninterp spec fn rfc3339_instant(text: Seq<char>) -> Option<(i128, bool)>;

/// Reads a time with `parse` of time's `OffsetDateTime` in the `Rfc3339` format.
/// What comes back depends on the text alone.
#[verifier::external_body]
pub(crate) fn parse_rfc3339(text: &str) -> (instant: Option<(i128, bool)>)
    ensures
        instant == rfc3339_instant(text@),
{
    time::OffsetDateTime::parse(text, &time::format_description::well_known::Rfc3339)
        .ok()
        .map(|time| (time.unix_timestamp_nanos(), time.offset().is_utc()))
}

/// An instant, in nanoseconds since the start of 1970, written in UTC as an RFC 3339
/// text; `None` where it cannot be.
pub uninterp spec fn rfc3339_text(instant: i128) -> Option<Seq<char>>;

/// Writes a time with `format` of time's `OffsetDateTime` in the `Rfc3339` format,
/// for the time that `from_unix_timestamp_nanos` gives. What comes back depends on
/// the instant alone.
#[verifier::external_body]
pub(crate) fn format_rfc3339(instant: i128) -> (text: Option<String>)
    ensures
        match text {
            Some(text) => rfc3339_text(instant) == Some(text@),
            None => rfc3339_text(instant) is None,
        },
{
    let time = time::OffsetDateTime::from_unix_timestamp_nanos(instant).ok()?;
    time.format(&time::format_description::well_known::Rfc3339).ok()
}

/// What a text says as an absolute URL.
pub struct ParsedUrl {
    /// The scheme, in lower case.
    pub scheme: String,
    /// It names a host.
    pub has_host: bool,
}

/// What an absolute URL says.
pub ghost struct UrlView {
    pub scheme: Seq<char>,
    pub has_host: bool,
}

impl View for ParsedUrl {
    type V = UrlView;

    open spec fn view(&self) -> UrlView {
        UrlView { scheme: self.scheme@, has_host: self.has_host }
    }
}

/// What a text says as an absolute URL; `None` where it is none.
pub uninterp spec fn absolute_url(text: Seq<char>) -> Option<UrlView>;

/// An absolute HTTP or HTTPS URL that names a host.
pub open spec fn is_web_url(url: Option<UrlView>) -> bool {
    match url {
        Some(url) => (url.scheme == "http"@ || url.scheme == "https"@) && url.has_host,
        None => false,
    }
}

/// The origin of an absolute HTTP or HTTPS URL, written in ASCII.
pub uninterp spec fn url_origin(text: Seq<char>) -> Seq<char>;

/// Reads a URL with `parse` of url's `Url`, and asks `scheme` and `has_host` of it. What
/// comes back depends on the text alone.
#[verifier::external_body]
pub(crate) fn parse_url(text: &str) -> (url: Option<ParsedUrl>)
    ensures
        match url {
            Some(url) => absolute_url(text@) == Some(url@),
            None => absolute_url(text@) is None,
        },
{
    url::Url::parse(text).ok().map(|url| ParsedUrl {
        scheme: url.scheme().to_owned(),
        has_host: url.has_host(),
    })
}

/// Reads a URL with `parse` of url's `Url`, and writes its `origin` with
/// `ascii_serialization`. What comes back depends on the text alone.
#[verifier::external_body]
pub(crate) fn write_origin(text: &str) -> (origin: String)
    requires
        is_web_url(absolute_url(text@)),
    ensures
        origin@ == url_origin(text@),
{
    url::Url::parse(text).map(|url| url.origin().ascii_serialization()).unwrap_or_default()
}

/// Draws a random identifier with `Uuid::new_v4` of uuid and writes it with `simple`,
/// which gives 32 lower-case hexadecimal digits.
#[verifier::external_body]
pub(crate) fn random_id() -> (id: String)
    ensures
        id@.len() == 32,
        forall|index: int| 0 <= index < 32 ==> hex_character(#[trigger] id@[index]),
{
    uuid::Uuid::new_v4().simple().to_string()
}

/// A URL leads to the web where its scheme is `http` or `https` and it has a host.
pub proof fn law_web_urls(url: UrlView)
    ensures
        is_web_url(Some(url)) <==> url.has_host && (url.scheme == seq!['h', 't', 't', 'p'] || url.scheme == seq![
            'h',
            't',
            't',
            'p',
            's',
        ]),
        !is_web_url(None),
{
    reveal_strlit("http");
    reveal_strlit("https");
    assert("http"@ =~= seq!['h', 't', 't', 'p']);
    assert("https"@ =~= seq!['h', 't', 't', 'p', 's']);
}

} // verus!

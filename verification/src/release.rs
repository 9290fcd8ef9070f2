//! Signed releases and the trust documents that authorize their keys.

use vstd::prelude::*;
use vstd::string::*;
use vstd::utf8::*;

use crate::component::{extract_manifest, finding_views, manifest_of, ComponentError, Finding};
use crate::identity::{
    digest, digest_of, extension_name, is_digest, is_extension_name, is_key_id, is_permanent, key_id, permanent_subject,
    valid_digest,
};
use crate::primitives::{
    base64url_decoded, base64url_encoded, decode_base64url, ed25519_accepts, ed25519_weakness, encode_base64url,
    key_weakness, parse_rfc3339, parse_version, rfc3339_instant, semantic_version, verify_ed25519, version_view,
    SemanticVersion, SemanticVersionView,
};
use crate::table::{names, Table};
use crate::text::{
    alphanumeric, chars_of, cut, cut_text, is_alphanumeric, is_before, joined, lemma_cut, lemma_cut_at, lemma_text_order,
    same_bytes, same_text,
    text_before, text_of,
};

verus! {

/// The longest release envelope, in bytes.
pub const MAX_RELEASE_BYTES: usize = 16 * 1024;

/// The longest trust document, in bytes.
pub const MAX_TRUST_BYTES: usize = 1024 * 1024;

/// The longest manifest that a release may declare, in bytes.
pub const MAX_RELEASE_MANIFEST: u64 = 256 * 1024;

/// The longest component that a release may declare, in bytes.
pub const MAX_RELEASE_COMPONENT: u64 = 64 * 1024 * 1024;

/// The most release keys in a trust document.
pub const MAX_KEYS: usize = 64;

/// The most revocations in a trust document.
pub const MAX_REVOCATIONS: usize = 16_384;

/// How long a trust document holds, in nanoseconds: thirty days.
pub const TRUST_LIFETIME: i128 = 30 * 24 * 60 * 60 * 1_000_000_000;

/// The domain that separates release signatures from others.
pub const RELEASE_DOMAIN: &'static str = "sloper.release";

/// The domain that separates trust signatures from others.
pub const TRUST_DOMAIN: &'static str = "sloper.trust";

/// Why a signed document was found invalid.
#[derive(Clone, Copy, Debug, PartialEq, Eq, Structural)]
pub enum Reason {
    RootKeys,
    RootKeyLength,
    RevocationReason,
    Tombstone,
    Lifetime,
    TooMany,
    ReleaseKey,
    PublicKey,
    Subject,
    SubjectOrder,
    Version,
    Identity,
    IdentityMismatch,
    Object,
    LineSize,
    SignatureMissing,
    SignatureLength,
    Segment,
    Noncanonical,
    Timestamp,
    TimestampZone,
}

impl Reason {
    /// The words for this reason.
    pub open spec fn text_spec(self) -> Seq<char> {
        match self {
            Reason::RootKeys => "invalid root keys"@,
            Reason::RootKeyLength => "invalid root key length"@,
            Reason::RevocationReason => "unknown revocation reason"@,
            Reason::Tombstone => "invalid persisted tombstone"@,
            Reason::Lifetime => "invalid trust lifetime or generation"@,
            Reason::TooMany => "too many keys or revocations"@,
            Reason::ReleaseKey => "invalid or duplicate release key"@,
            Reason::PublicKey => "invalid Ed25519 public key"@,
            Reason::Subject => "invalid revocation subject"@,
            Reason::SubjectOrder => "revocation subjects must be unique and sorted"@,
            Reason::Version => "invalid exact version"@,
            Reason::Identity => "invalid release identity"@,
            Reason::IdentityMismatch => "manifest identity does not match release"@,
            Reason::Object => "invalid object digest or size"@,
            Reason::LineSize => "invalid signed line size or encoding"@,
            Reason::SignatureMissing => "missing signature segment"@,
            Reason::SignatureLength => "invalid signature length"@,
            Reason::Segment => "invalid unpadded base64url segment"@,
            Reason::Noncanonical => "noncanonical base64url"@,
            Reason::Timestamp => "invalid UTC timestamp"@,
            Reason::TimestampZone => "timestamp must use UTC"@,
        }
    }

    /// Returns the words for this reason.
    pub fn text(&self) -> (text: &'static str)
        ensures
            text@ == self.text_spec(),
    {
        match self {
            Reason::RootKeys => "invalid root keys",
            Reason::RootKeyLength => "invalid root key length",
            Reason::RevocationReason => "unknown revocation reason",
            Reason::Tombstone => "invalid persisted tombstone",
            Reason::Lifetime => "invalid trust lifetime or generation",
            Reason::TooMany => "too many keys or revocations",
            Reason::ReleaseKey => "invalid or duplicate release key",
            Reason::PublicKey => "invalid Ed25519 public key",
            Reason::Subject => "invalid revocation subject",
            Reason::SubjectOrder => "revocation subjects must be unique and sorted",
            Reason::Version => "invalid exact version",
            Reason::Identity => "invalid release identity",
            Reason::IdentityMismatch => "manifest identity does not match release",
            Reason::Object => "invalid object digest or size",
            Reason::LineSize => "invalid signed line size or encoding",
            Reason::SignatureMissing => "missing signature segment",
            Reason::SignatureLength => "invalid signature length",
            Reason::Segment => "invalid unpadded base64url segment",
            Reason::Noncanonical => "noncanonical base64url",
            Reason::Timestamp => "invalid UTC timestamp",
            Reason::TimestampZone => "timestamp must use UTC",
        }
    }
}

/// What is wrong with a signed document itself.
#[derive(Clone, Copy, Debug, PartialEq, Eq, Structural)]
pub enum Malformed {
    /// A field, an encoding or a bound is invalid.
    Invalid(Reason),
    /// The signed JSON payload could not be decoded.
    Json,
    /// A base64url segment could not be decoded.
    Base64,
    /// The payload segment does not verify under the key.
    SignatureInvalid,
}

/// Why a release or a trust document was not admitted.
#[derive(Debug)]
pub enum ReleaseError {
    /// The component does not carry one valid embedded declaration.
    Component(ComponentError),
    /// The embedded manifest was refused with these findings.
    Manifest(Vec<Finding>),
    /// The host world refused the component, for the reason kept inside.
    Admission(String),
    /// There is no envelope.
    Unsigned,
    /// The envelope is malformed or its signature invalid.
    Malformed(Malformed),
    /// The release key is not in the trust document.
    KeyUnknown,
    /// Exact length or digest differs from what was signed.
    DigestMismatch,
    /// Trust or a tombstone revokes the release.
    Revoked,
    /// A trust document is malformed or no root signed it.
    TrustInvalid(Malformed),
    /// A generation decreased, or one generation changed its bytes.
    TrustRollback,
    /// New admission requires fresh trust.
    TrustStale,
}

impl ReleaseError {
    /// The stable category of this error.
    pub open spec fn code_spec(&self) -> Seq<char> {
        match self {
            ReleaseError::Component(error) => if exists|index: int|
                0 <= index < error.findings_spec().len() && (#[trigger] error.findings_spec()[index]).code
                    == "MANIFEST_WORLD_INVALID"@ {
                "extension.incompatible"@
            } else {
                "extension.undeclared"@
            },
            ReleaseError::Manifest(_) => "extension.undeclared"@,
            ReleaseError::Admission(_) => "extension.incompatible"@,
            ReleaseError::Unsigned => "extension.unsigned"@,
            ReleaseError::Malformed(Malformed::SignatureInvalid) => "release.signature-invalid"@,
            ReleaseError::Malformed(_) => "release.invalid"@,
            ReleaseError::KeyUnknown => "release.key-unknown"@,
            ReleaseError::DigestMismatch => "release.digest-mismatch"@,
            ReleaseError::Revoked => "release.revoked"@,
            ReleaseError::TrustInvalid(_) => "trust.invalid"@,
            ReleaseError::TrustRollback => "trust.rollback"@,
            ReleaseError::TrustStale => "trust.stale"@,
        }
    }

    /// Returns the stable category of this error.
    pub fn code(&self) -> (code: &'static str)
        ensures
            code@ == self.code_spec(),
    {
        match self {
            ReleaseError::Component(error) => {
                let findings = error.findings();
                let ghost shown = error.findings_spec();
                let mut index: usize = 0;
                while index < findings.len()
                    invariant
                        index <= findings.len(),
                        *self == ReleaseError::Component(*error),
                        shown == finding_views(findings@),
                        shown == error.findings_spec(),
                        forall|i: int| 0 <= i < index ==> (#[trigger] shown[i]).code != "MANIFEST_WORLD_INVALID"@,
                    decreases findings.len() - index,
                {
                    assert(shown[index as int].code == findings@[index as int].code@);
                    if same_text(findings[index].code.as_str(), "MANIFEST_WORLD_INVALID") {
                        return "extension.incompatible";
                    }
                    index += 1;
                }
                assert(shown.len() == findings@.len());
                "extension.undeclared"
            },
            ReleaseError::Manifest(_) => "extension.undeclared",
            ReleaseError::Admission(_) => "extension.incompatible",
            ReleaseError::Unsigned => "extension.unsigned",
            ReleaseError::Malformed(Malformed::SignatureInvalid) => "release.signature-invalid",
            ReleaseError::Malformed(_) => "release.invalid",
            ReleaseError::KeyUnknown => "release.key-unknown",
            ReleaseError::DigestMismatch => "release.digest-mismatch",
            ReleaseError::Revoked => "release.revoked",
            ReleaseError::TrustInvalid(_) => "trust.invalid",
            ReleaseError::TrustRollback => "trust.rollback",
            ReleaseError::TrustStale => "trust.stale",
        }
    }
}

/// A character of unpadded base64url.
pub open spec fn base64url_character(character: char) -> bool {
    alphanumeric(character) || character == '-' || character == '_'
}

/// The bytes of a segment that decodes to `decoded`, bytes and how they are encoded,
/// where it is canonical unpadded base64url.
pub open spec fn canonical_bytes(segment: Seq<char>, decoded: Option<(Seq<u8>, Seq<char>)>) -> Result<Seq<u8>, Malformed> {
    if segment.len() == 0 || exists|index: int|
        0 <= index < segment.len() && !base64url_character(#[trigger] segment[index]) {
        Err(Malformed::Invalid(Reason::Segment))
    } else {
        match decoded {
            None => Err(Malformed::Base64),
            Some((bytes, canonical)) => if canonical == segment {
                Ok(bytes)
            } else {
                Err(Malformed::Invalid(Reason::Noncanonical))
            },
        }
    }
}

/// The bytes of a canonical unpadded base64url segment.
pub open spec fn segment_bytes(segment: Seq<char>) -> Result<Seq<u8>, Malformed> {
    canonical_bytes(
        segment,
        match base64url_decoded(segment) {
            Some(bytes) => Some((bytes, base64url_encoded(bytes))),
            None => None,
        },
    )
}

/// Takes the bytes of a segment that decodes to `decoded`, bytes and how they are encoded,
/// where it is canonical unpadded base64url.
pub fn accept_segment(segment: &str, decoded: Option<(Vec<u8>, String)>) -> (accepted: Result<Vec<u8>, Malformed>)
    ensures
        ({
            let expected = canonical_bytes(
                segment@,
                match decoded {
                    Some((bytes, canonical)) => Some((bytes@, canonical@)),
                    None => None,
                },
            );
            match accepted {
                Ok(bytes) => expected == Ok::<Seq<u8>, Malformed>(bytes@),
                Err(malformed) => expected == Err::<Seq<u8>, Malformed>(malformed),
            }
        }),
{
    let characters = chars_of(segment);
    if characters.len() == 0 {
        return Err(Malformed::Invalid(Reason::Segment));
    }
    let mut index: usize = 0;
    while index < characters.len()
        invariant
            index <= characters.len(),
            characters@ == segment@,
            forall|i: int| 0 <= i < index ==> base64url_character(#[trigger] segment@[i]),
        decreases characters.len() - index,
    {
        let character = characters[index];
        if !(is_alphanumeric(character) || character == '-' || character == '_') {
            assert(!base64url_character(segment@[index as int]));
            return Err(Malformed::Invalid(Reason::Segment));
        }
        index += 1;
    }
    match decoded {
        None => Err(Malformed::Base64),
        Some((bytes, canonical)) => {
            if same_text(canonical.as_str(), segment) {
                Ok(bytes)
            } else {
                Err(Malformed::Invalid(Reason::Noncanonical))
            }
        },
    }
}

/// Decodes a canonical unpadded base64url segment.
pub fn decode(segment: &str) -> (decoded: Result<Vec<u8>, Malformed>)
    ensures
        match decoded {
            Ok(bytes) => segment_bytes(segment@) == Ok::<Seq<u8>, Malformed>(bytes@),
            Err(malformed) => segment_bytes(segment@) == Err::<Seq<u8>, Malformed>(malformed),
        },
{
    let decoded = match decode_base64url(segment) {
        Some(bytes) => {
            let canonical = encode_base64url(bytes.as_slice());
            Some((bytes, canonical))
        },
        None => None,
    };
    accept_segment(segment, decoded)
}

/// A payload segment and its signature, decoded.
pub struct SignedLine {
    pub segment: String,
    pub payload: Vec<u8>,
    pub signature: Vec<u8>,
}

/// What a signed line holds.
pub ghost struct SignedView {
    pub segment: Seq<char>,
    pub payload: Seq<u8>,
    pub signature: Seq<u8>,
}

impl View for SignedLine {
    type V = SignedView;

    open spec fn view(&self) -> SignedView {
        SignedView { segment: self.segment@, payload: self.payload@, signature: self.signature@ }
    }
}

/// ASCII bytes only.
pub open spec fn all_ascii(bytes: Seq<u8>) -> bool {
    forall|index: int| 0 <= index < bytes.len() ==> #[trigger] bytes[index] < 0x80
}

/// The text of ASCII bytes.
pub open spec fn ascii_text(bytes: Seq<u8>) -> Seq<char> {
    Seq::new(bytes.len(), |index: int| bytes[index] as char)
}

/// What a signed line of at most `limit` bytes holds: a payload segment, a dot
/// and a signature of 64 bytes.
pub open spec fn signed_line(line: Seq<u8>, limit: int) -> Result<SignedView, Malformed> {
    if line.len() == 0 || line.len() > limit || !all_ascii(line) {
        Err(Malformed::Invalid(Reason::LineSize))
    } else {
        match cut(ascii_text(line), '.') {
            None => Err(Malformed::Invalid(Reason::SignatureMissing)),
            Some((segment, signature)) => match segment_bytes(segment) {
                Err(malformed) => Err(malformed),
                Ok(payload) => match segment_bytes(signature) {
                    Err(malformed) => Err(malformed),
                    Ok(signature) => if signature.len() != 64 {
                        Err(Malformed::Invalid(Reason::SignatureLength))
                    } else {
                        Ok(SignedView { segment, payload, signature })
                    },
                },
            },
        }
    }
}

/// The signature of a line is good for `domain` under `key`: it covers the
/// domain, a zero byte and the payload segment as it stands in the line.
pub open spec fn line_verifies(line: SignedView, domain: Seq<char>, key: Seq<u8>) -> bool {
    ed25519_accepts(key, encode_utf8(domain) + seq![0u8] + encode_utf8(line.segment), line.signature)
}

impl SignedLine {
    /// Reads a signed line of at most `limit` bytes.
    pub fn parse(line: &[u8], limit: usize) -> (parsed: Result<SignedLine, Malformed>)
        ensures
            match parsed {
                Ok(parsed) => signed_line(line@, limit as int) == Ok::<SignedView, Malformed>(parsed@),
                Err(malformed) => signed_line(line@, limit as int) == Err::<SignedView, Malformed>(malformed),
            },
    {
        if line.len() == 0 || line.len() > limit {
            return Err(Malformed::Invalid(Reason::LineSize));
        }
        let mut characters: Vec<char> = Vec::new();
        let mut index: usize = 0;
        while index < line.len()
            invariant
                index <= line.len(),
                characters@ == ascii_text(line@).take(index as int),
                forall|i: int| 0 <= i < index ==> #[trigger] line@[i] < 0x80,
            decreases line.len() - index,
        {
            if line[index] >= 0x80 {
                return Err(Malformed::Invalid(Reason::LineSize));
            }
            characters.push(line[index] as char);
            assert(ascii_text(line@).take(index + 1) =~= ascii_text(line@).take(index as int).push(
                line@[index as int] as char,
            ));
            index += 1;
        }
        assert(characters@ =~= ascii_text(line@));
        let text = text_of(&characters);
        let (segment, signature) = match cut_text(text.as_str(), '.') {
            Some(parts) => parts,
            None => return Err(Malformed::Invalid(Reason::SignatureMissing)),
        };
        let payload = match decode(segment.as_str()) {
            Ok(payload) => payload,
            Err(malformed) => return Err(malformed),
        };
        let signature = match decode(signature.as_str()) {
            Ok(signature) => signature,
            Err(malformed) => return Err(malformed),
        };
        if signature.len() != 64 {
            return Err(Malformed::Invalid(Reason::SignatureLength));
        }
        Ok(SignedLine { segment, payload, signature })
    }

    /// Whether the signature is good for `domain` under `key`.
    pub fn verify(&self, domain: &str, key: &[u8]) -> (good: bool)
        ensures
            good == line_verifies(self@, domain@, key@),
    {
        let mut message: Vec<u8> = Vec::new();
        message.extend_from_slice(domain.as_bytes());
        message.push(0);
        message.extend_from_slice(self.segment.as_str().as_bytes());
        assert(message@ =~= encode_utf8(domain@) + seq![0u8] + encode_utf8(self.segment@));
        verify_ed25519(key, message.as_slice(), self.signature.as_slice())
    }
}

/// The instant of a text that denotes `parsed`, where it is a UTC timestamp.
pub open spec fn utc_of(text: Seq<char>, parsed: Option<(i128, bool)>) -> Result<i128, Malformed> {
    match parsed {
        None => Err(Malformed::Invalid(Reason::Timestamp)),
        Some((instant, utc)) => if utc && text.len() > 0 && text.last() == 'Z' {
            Ok(instant)
        } else {
            Err(Malformed::Invalid(Reason::TimestampZone))
        },
    }
}

/// The instant of a UTC timestamp, in nanoseconds since the start of 1970.
pub open spec fn instant_of(text: Seq<char>) -> Result<i128, Malformed> {
    utc_of(text, rfc3339_instant(text))
}

/// Returns the instant of a text that denotes `parsed`, where it is a UTC timestamp.
pub fn utc_instant(value: &str, parsed: Option<(i128, bool)>) -> (instant: Result<i128, Malformed>)
    ensures
        instant == utc_of(value@, parsed),
{
    let (instant, utc) = match parsed {
        None => return Err(Malformed::Invalid(Reason::Timestamp)),
        Some(parsed) => parsed,
    };
    let characters = chars_of(value);
    if utc && characters.len() > 0 && characters[characters.len() - 1] == 'Z' {
        Ok(instant)
    } else {
        Err(Malformed::Invalid(Reason::TimestampZone))
    }
}

/// Reads a UTC timestamp.
pub fn timestamp(value: &str) -> (instant: Result<i128, Malformed>)
    ensures
        instant == instant_of(value@),
{
    utc_instant(value, parse_rfc3339(value))
}

/// The bytes of an Ed25519 public key that is not weak.
pub open spec fn is_public_key(bytes: Seq<u8>) -> bool {
    bytes.len() == 32 && ed25519_weakness(bytes) == Some(false)
}

/// Whether the bytes are an Ed25519 public key that is not weak.
pub fn valid_public_key(bytes: &[u8]) -> (valid: bool)
    ensures
        valid == is_public_key(bytes@),
{
    if bytes.len() != 32 {
        return false;
    }
    match key_weakness(bytes) {
        Some(weak) => !weak,
        None => false,
    }
}

/// The two distinct root keys that authenticate trust documents, and nothing else.
#[derive(Debug)]
pub struct TrustRoots {
    first: Vec<u8>,
    second: Vec<u8>,
}

impl View for TrustRoots {
    type V = (Seq<u8>, Seq<u8>);

    closed spec fn view(&self) -> (Seq<u8>, Seq<u8>) {
        (self.first@, self.second@)
    }
}

impl TrustRoots {
    /// Two distinct public keys that are not weak.
    pub open spec fn wf(&self) -> bool {
        self@.0 != self@.1 && is_public_key(self@.0) && is_public_key(self@.1)
    }

    /// Checks the two provisioned root keys.
    pub fn new(keys: [[u8; 32]; 2]) -> (roots: Result<TrustRoots, ReleaseError>)
        ensures
            match roots {
                Ok(roots) => roots.wf() && roots@ == (keys@[0]@, keys@[1]@),
                Err(error) => error == ReleaseError::TrustInvalid(Malformed::Invalid(Reason::RootKeys)) && !(keys@[0]@
                    != keys@[1]@ && is_public_key(keys@[0]@) && is_public_key(keys@[1]@)),
            },
    {
        let first = keys[0].as_slice();
        let second = keys[1].as_slice();
        if same_bytes(first, second) || !valid_public_key(first) || !valid_public_key(second) {
            return Err(ReleaseError::TrustInvalid(Malformed::Invalid(Reason::RootKeys)));
        }
        Ok(TrustRoots { first: vstd::slice::slice_to_vec(first), second: vstd::slice::slice_to_vec(second) })
    }
}


/// The bytes of a root key written in base64url.
pub open spec fn root_bytes(text: Seq<char>) -> Result<Seq<u8>, Malformed> {
    match segment_bytes(text) {
        Err(malformed) => Err(malformed),
        Ok(bytes) => if bytes.len() == 32 {
            Ok(bytes)
        } else {
            Err(Malformed::Invalid(Reason::RootKeyLength))
        },
    }
}

fn decode_root(text: &str) -> (key: Result<[u8; 32], Malformed>)
    ensures
        match key {
            Ok(key) => root_bytes(text@) == Ok::<Seq<u8>, Malformed>(key@),
            Err(malformed) => root_bytes(text@) == Err::<Seq<u8>, Malformed>(malformed),
        },
{
    let bytes = match decode(text) {
        Ok(bytes) => bytes,
        Err(malformed) => return Err(malformed),
    };
    if bytes.len() != 32 {
        return Err(Malformed::Invalid(Reason::RootKeyLength));
    }
    let mut key: [u8; 32] = [0; 32];
    let mut index: usize = 0;
    while index < 32
        invariant
            index <= 32,
            bytes@.len() == 32,
            forall|i: int| 0 <= i < index ==> key@[i] == bytes@[i],
        decreases 32 - index,
    {
        key[index] = bytes[index];
        index += 1;
    }
    assert(key@ =~= bytes@);
    Ok(key)
}

impl TrustRoots {
    /// Decodes the two root keys written in base64url.
    pub fn from_base64(first: &str, second: &str) -> (roots: Result<TrustRoots, ReleaseError>)
        ensures
            match (root_bytes(first@), root_bytes(second@)) {
                (Err(malformed), _) => roots == Err::<TrustRoots, _>(ReleaseError::TrustInvalid(malformed)),
                (Ok(_), Err(malformed)) => roots == Err::<TrustRoots, _>(ReleaseError::TrustInvalid(malformed)),
                (Ok(one), Ok(two)) => if one != two && is_public_key(one) && is_public_key(two) {
                    roots matches Ok(roots) && roots.wf() && roots@ == (one, two)
                } else {
                    roots == Err::<TrustRoots, _>(
                        ReleaseError::TrustInvalid(Malformed::Invalid(Reason::RootKeys)),
                    )
                },
            },
    {
        let one = match decode_root(first) {
            Ok(key) => key,
            Err(malformed) => return Err(ReleaseError::TrustInvalid(malformed)),
        };
        let two = match decode_root(second) {
            Ok(key) => key,
            Err(malformed) => return Err(ReleaseError::TrustInvalid(malformed)),
        };
        TrustRoots::new([one, two])
    }
}

/// Whether a release key still signs releases.
#[derive(Clone, Copy, Debug, PartialEq, Eq, Structural)]
pub enum KeyState {
    Active,
    Retired,
}

/// Why a subject was revoked.
#[derive(Clone, Copy, Debug, PartialEq, Eq, Structural)]
pub enum RevocationReason {
    Compromised,
    Malicious,
    Broken,
    Mistaken,
}

impl RevocationReason {
    /// The word for this reason.
    pub open spec fn text_spec(self) -> Seq<char> {
        match self {
            RevocationReason::Compromised => "compromised"@,
            RevocationReason::Malicious => "malicious"@,
            RevocationReason::Broken => "broken"@,
            RevocationReason::Mistaken => "mistaken"@,
        }
    }

    /// Returns the word for this reason.
    pub fn as_str(self) -> (text: &'static str)
        ensures
            text@ == self.text_spec(),
    {
        match self {
            RevocationReason::Compromised => "compromised",
            RevocationReason::Malicious => "malicious",
            RevocationReason::Broken => "broken",
            RevocationReason::Mistaken => "mistaken",
        }
    }

    /// The reason of a word.
    pub open spec fn of_text(text: Seq<char>) -> Option<RevocationReason> {
        if text == "compromised"@ {
            Some(RevocationReason::Compromised)
        } else if text == "malicious"@ {
            Some(RevocationReason::Malicious)
        } else if text == "broken"@ {
            Some(RevocationReason::Broken)
        } else if text == "mistaken"@ {
            Some(RevocationReason::Mistaken)
        } else {
            None
        }
    }

    /// Reads a word for a reason.
    pub fn parse(value: &str) -> (reason: Result<RevocationReason, Malformed>)
        ensures
            match RevocationReason::of_text(value@) {
                Some(known) => reason == Ok::<_, Malformed>(known),
                None => reason == Err::<RevocationReason, _>(Malformed::Invalid(Reason::RevocationReason)),
            },
    {
        if same_text(value, "compromised") {
            Ok(RevocationReason::Compromised)
        } else if same_text(value, "malicious") {
            Ok(RevocationReason::Malicious)
        } else if same_text(value, "broken") {
            Ok(RevocationReason::Broken)
        } else if same_text(value, "mistaken") {
            Ok(RevocationReason::Mistaken)
        } else {
            Err(Malformed::Invalid(Reason::RevocationReason))
        }
    }
}

/// Reading the word of a reason gives the reason back.
pub proof fn law_reason_reads_back(reason: RevocationReason)
    ensures
        RevocationReason::of_text(reason.text_spec()) == Some(reason),
{
    reveal_strlit("compromised");
    reveal_strlit("malicious");
    reveal_strlit("broken");
    reveal_strlit("mistaken");
    assert("compromised"@.len() == 11 && "malicious"@.len() == 9 && "broken"@.len() == 6 && "mistaken"@.len() == 8);
}

/// A release key of a trust document.
#[derive(Debug)]
pub struct ReleaseKey {
    pub id: String,
    pub public: String,
    pub state: KeyState,
}

/// A revocation of a trust document.
#[derive(Debug)]
pub struct Revocation {
    pub subject: String,
    pub reason: RevocationReason,
}

/// The signed contents of a trust document.
#[derive(Debug)]
pub struct TrustPayload {
    pub generation: u64,
    pub issued: String,
    pub expires: String,
    pub keys: Vec<ReleaseKey>,
    pub revoked: Vec<Revocation>,
}

/// What a trust document claims.
pub ghost struct TrustClaim {
    pub generation: u64,
    pub issued: Seq<char>,
    pub expires: Seq<char>,
    /// The name, the written public key and the state of each release key.
    pub keys: Seq<(Seq<char>, Seq<char>, KeyState)>,
    pub revoked: Seq<(Seq<char>, RevocationReason)>,
}

/// The name, the written public key and the state of each release key.
pub open spec fn keys_of(keys: Seq<ReleaseKey>) -> Seq<(Seq<char>, Seq<char>, KeyState)> {
    keys.map_values(|key: ReleaseKey| (key.id@, key.public@, key.state))
}

/// The subject and reason of each revocation.
pub open spec fn revocations_of(revoked: Seq<Revocation>) -> Seq<(Seq<char>, RevocationReason)> {
    revoked.map_values(|revocation: Revocation| (revocation.subject@, revocation.reason))
}

impl View for TrustPayload {
    type V = TrustClaim;

    open spec fn view(&self) -> TrustClaim {
        TrustClaim {
            generation: self.generation,
            issued: self.issued@,
            expires: self.expires@,
            keys: keys_of(self.keys@),
            revoked: revocations_of(self.revoked@),
        }
    }
}

/// What is wrong with the release key at `index`, if anything: its name must be
/// valid and new, its public key valid and no root key.
pub open spec fn key_fault(
    keys: Seq<(Seq<char>, Seq<char>, KeyState)>,
    roots: (Seq<u8>, Seq<u8>),
    index: int,
) -> Option<Malformed> {
    if !is_key_id(keys[index].0) || (exists|other: int| 0 <= other < index && (#[trigger] keys[other]).0 == keys[index].0) {
        Some(Malformed::Invalid(Reason::ReleaseKey))
    } else {
        match segment_bytes(keys[index].1) {
            Err(malformed) => Some(malformed),
            Ok(public) => if !is_public_key(public) || public == roots.0 || public == roots.1 {
                Some(Malformed::Invalid(Reason::PublicKey))
            } else {
                None
            },
        }
    }
}

/// What is wrong with the first faulty release key from `index` on.
pub open spec fn keys_fault(
    keys: Seq<(Seq<char>, Seq<char>, KeyState)>,
    roots: (Seq<u8>, Seq<u8>),
    index: int,
) -> Option<Malformed>
    decreases keys.len() - index,
{
    if index >= keys.len() {
        None
    } else if key_fault(keys, roots, index) is Some {
        key_fault(keys, roots, index)
    } else {
        keys_fault(keys, roots, index + 1)
    }
}

/// What is wrong with the revocation at `index`, if anything: its subject must be
/// a digest, a key or an extension, and come behind the one before.
pub open spec fn revocation_fault(revoked: Seq<(Seq<char>, RevocationReason)>, index: int) -> Option<Malformed> {
    if !is_permanent(revoked[index].0) && !is_extension_name(revoked[index].0) {
        Some(Malformed::Invalid(Reason::Subject))
    } else if index > 0 && !text_before(revoked[index - 1].0, revoked[index].0) {
        Some(Malformed::Invalid(Reason::SubjectOrder))
    } else {
        None
    }
}

/// What is wrong with the first faulty revocation from `index` on.
pub open spec fn revocations_fault(revoked: Seq<(Seq<char>, RevocationReason)>, index: int) -> Option<Malformed>
    decreases revoked.len() - index,
{
    if index >= revoked.len() {
        None
    } else if revocation_fault(revoked, index) is Some {
        revocation_fault(revoked, index)
    } else {
        revocations_fault(revoked, index + 1)
    }
}

/// When an authentic trust document was issued and when it expires; otherwise
/// what is wrong with it. `claim` is what its payload decodes to.
pub open spec fn authenticated(document: Seq<u8>, claim: Option<TrustClaim>, roots: (Seq<u8>, Seq<u8>)) -> Result<
    (i128, i128),
    Malformed,
> {
    match signed_line(document, MAX_TRUST_BYTES as int) {
        Err(malformed) => Err(malformed),
        Ok(line) => match claim {
            None => Err(Malformed::Json),
            Some(claim) => if !line_verifies(line, TRUST_DOMAIN@, roots.0) && !line_verifies(
                line,
                TRUST_DOMAIN@,
                roots.1,
            ) {
                Err(Malformed::SignatureInvalid)
            } else {
                match (instant_of(claim.issued), instant_of(claim.expires)) {
                    (Err(malformed), _) => Err(malformed),
                    (Ok(_), Err(malformed)) => Err(malformed),
                    (Ok(issued), Ok(expires)) => if expires - issued != TRUST_LIFETIME || claim.generation > i64::MAX {
                        Err(Malformed::Invalid(Reason::Lifetime))
                    } else if claim.keys.len() > MAX_KEYS || claim.revoked.len() > MAX_REVOCATIONS {
                        Err(Malformed::Invalid(Reason::TooMany))
                    } else if keys_fault(claim.keys, roots, 0) is Some {
                        Err(keys_fault(claim.keys, roots, 0)->0)
                    } else if revocations_fault(claim.revoked, 0) is Some {
                        Err(revocations_fault(claim.revoked, 0)->0)
                    } else {
                        Ok((issued, expires))
                    },
                }
            },
        },
    }
}

fn check_keys(keys: &Vec<ReleaseKey>, roots: &TrustRoots) -> (checked: Result<(), Malformed>)
    ensures
        match checked {
            Ok(_) => keys_fault(keys_of(keys@), roots@, 0) is None,
            Err(malformed) => keys_fault(keys_of(keys@), roots@, 0) == Some(malformed),
        },
{
    let ghost listed = keys_of(keys@);
    let mut index: usize = 0;
    while index < keys.len()
        invariant
            index <= keys.len(),
            listed == keys_of(keys@),
            keys_fault(listed, roots@, 0) == keys_fault(listed, roots@, index as int),
        decreases keys.len() - index,
    {
        let key = &keys[index];
        assert(listed[index as int] == (key.id@, key.public@, key.state));
        if !key_id(key.id.as_str()) {
            return Err(Malformed::Invalid(Reason::ReleaseKey));
        }
        let mut other: usize = 0;
        while other < index
            invariant
                other <= index < keys.len(),
                listed == keys_of(keys@),
                listed[index as int].0 == key.id@,
                forall|i: int| 0 <= i < other ==> (#[trigger] listed[i]).0 != key.id@,
                is_key_id(listed[index as int].0),
                keys_fault(listed, roots@, 0) == keys_fault(listed, roots@, index as int),
            decreases index - other,
        {
            assert(listed[other as int].0 == keys@[other as int].id@);
            if same_text(keys[other].id.as_str(), key.id.as_str()) {
                assert(key_fault(listed, roots@, index as int) == Some(Malformed::Invalid(Reason::ReleaseKey)));
                return Err(Malformed::Invalid(Reason::ReleaseKey));
            }
            other += 1;
        }
        let public = match decode(key.public.as_str()) {
            Ok(public) => public,
            Err(malformed) => return Err(malformed),
        };
        if !valid_public_key(public.as_slice()) || same_bytes(roots.first.as_slice(), public.as_slice()) || same_bytes(
            roots.second.as_slice(),
            public.as_slice(),
        ) {
            return Err(Malformed::Invalid(Reason::PublicKey));
        }
        assert(key_fault(listed, roots@, index as int) is None);
        index += 1;
    }
    Ok(())
}

fn check_revocations(revoked: &Vec<Revocation>) -> (checked: Result<(), Malformed>)
    ensures
        match checked {
            Ok(_) => revocations_fault(revocations_of(revoked@), 0) is None,
            Err(malformed) => revocations_fault(revocations_of(revoked@), 0) == Some(malformed),
        },
{
    let ghost listed = revocations_of(revoked@);
    let mut index: usize = 0;
    while index < revoked.len()
        invariant
            index <= revoked.len(),
            listed == revocations_of(revoked@),
            revocations_fault(listed, 0) == revocations_fault(listed, index as int),
        decreases revoked.len() - index,
    {
        let subject = revoked[index].subject.as_str();
        assert(listed[index as int].0 == subject@);
        if !permanent_subject(subject) && !extension_name(subject) {
            return Err(Malformed::Invalid(Reason::Subject));
        }
        if index > 0 {
            assert(listed[index - 1].0 == revoked@[index - 1].subject@);
            if !is_before(revoked[index - 1].subject.as_str(), subject) {
                return Err(Malformed::Invalid(Reason::SubjectOrder));
            }
        }
        index += 1;
    }
    Ok(())
}

/// Accepted trust: the exact document, its claims, the trusted-time floor and the
/// subjects revoked for good. The caller persists it before use.
#[derive(Debug)]
pub struct Trust {
    payload: TrustPayload,
    document: Vec<u8>,
    trusted_at: i128,
    expires_at: i128,
    tombstones: Table<RevocationReason>,
}

/// What accepted trust holds. Instants are in nanoseconds since the start of 1970.
pub ghost struct TrustView {
    pub claim: TrustClaim,
    pub document: Seq<u8>,
    pub trusted_at: i128,
    pub expires_at: i128,
    pub tombstones: Map<Seq<char>, RevocationReason>,
}

impl View for Trust {
    type V = TrustView;

    closed spec fn view(&self) -> TrustView {
        TrustView {
            claim: self.payload@,
            document: self.document@,
            trusted_at: self.trusted_at,
            expires_at: self.expires_at,
            tombstones: self.tombstones@,
        }
    }
}

/// The tombstones after these revocations: those that are permanent join, and
/// none that stood before changes.
pub open spec fn buried(
    tombstones: Map<Seq<char>, RevocationReason>,
    revoked: Seq<(Seq<char>, RevocationReason)>,
) -> Map<Seq<char>, RevocationReason>
    decreases revoked.len(),
{
    if revoked.len() == 0 {
        tombstones
    } else {
        let before = buried(tombstones, revoked.drop_last());
        let (subject, reason) = revoked.last();
        if is_permanent(subject) && !before.dom().contains(subject) {
            before.insert(subject, reason)
        } else {
            before
        }
    }
}

/// The later of two instants.
pub open spec fn later(left: i128, right: i128) -> i128 {
    if left < right {
        right
    } else {
        left
    }
}

/// The claims roll `previous` back: a lower generation, or other bytes in the
/// same generation.
pub open spec fn rolls_back(previous: TrustView, generation: u64, document: Seq<u8>) -> bool {
    generation < previous.claim.generation || (generation == previous.claim.generation && document
        != previous.document)
}

/// What an authentic document makes of the trust accepted before.
pub open spec fn advanced(
    document: Seq<u8>,
    claim: TrustClaim,
    issued: i128,
    expires: i128,
    now: i128,
    previous: Option<TrustView>,
) -> TrustView {
    TrustView {
        claim,
        document,
        trusted_at: match previous {
            Some(previous) => later(later(now, issued), previous.trusted_at),
            None => later(now, issued),
        },
        expires_at: expires,
        tombstones: buried(
            match previous {
                Some(previous) => previous.tombstones,
                None => Map::empty(),
            },
            claim.revoked,
        ),
    }
}

/// What the trust decision on a document is.
pub open spec fn trust_of(
    document: Seq<u8>,
    claim: Option<TrustClaim>,
    roots: (Seq<u8>, Seq<u8>),
    now: i128,
    previous: Option<TrustView>,
) -> Result<TrustView, ReleaseError> {
    match authenticated(document, claim, roots) {
        Err(malformed) => Err(ReleaseError::TrustInvalid(malformed)),
        Ok((issued, expires)) => if previous is Some && rolls_back(previous->0, claim->0.generation, document) {
            Err(ReleaseError::TrustRollback)
        } else {
            Ok(advanced(document, claim->0, issued, expires, now, previous))
        },
    }
}

/// What holds of accepted trust: its floor is not before its issue, every
/// permanent revocation in it has a tombstone, every tombstone is permanent, and the
/// keys that it lists can be decoded.
pub open spec fn trust_holds(trust: TrustView) -> bool {
    &&& instant_of(trust.claim.issued) matches Ok(issued) && issued <= trust.trusted_at
    &&& forall|index: int|
        0 <= index < trust.claim.revoked.len() && is_permanent((#[trigger] trust.claim.revoked[index]).0)
            ==> trust.tombstones.dom().contains(trust.claim.revoked[index].0)
    &&& forall|subject: Seq<char>| #[trigger] trust.tombstones.dom().contains(subject) ==> is_permanent(subject)
    &&& forall|index: int|
        0 <= index < trust.claim.keys.len() ==> segment_bytes((#[trigger] trust.claim.keys[index]).1) is Ok
}

/// Trust was accepted under these roots, whatever else happened to it since.
pub open spec fn accepted_under(trust: TrustView, roots: (Seq<u8>, Seq<u8>)) -> bool {
    trust_holds(trust) && (authenticated(trust.document, Some(trust.claim), roots) matches Ok((_, expires)) && expires
        == trust.expires_at)
}

/// Trust revokes `subject`, by a tombstone or in its current document.
pub open spec fn revokes(trust: TrustView, subject: Seq<char>) -> bool {
    trust.tombstones.dom().contains(subject) || exists|index: int|
        0 <= index < trust.claim.revoked.len() && (#[trigger] trust.claim.revoked[index]).0 == subject
}

/// Trust has expired, by the later of the clock and its floor.
pub open spec fn stale(trust: TrustView, now: i128) -> bool {
    later(now, trust.trusted_at) >= trust.expires_at
}

/// The tombstones with those of `list` from `index` on.
pub open spec fn entombed(
    tombstones: Map<Seq<char>, RevocationReason>,
    list: Seq<(Seq<char>, Seq<char>)>,
    index: int,
) -> Result<Map<Seq<char>, RevocationReason>, Malformed>
    decreases list.len() - index,
{
    if index >= list.len() {
        Ok(tombstones)
    } else if !is_permanent(list[index].0) || (exists|other: int|
        0 <= other < index && (#[trigger] list[other]).0 == list[index].0) {
        Err(Malformed::Invalid(Reason::Tombstone))
    } else {
        match RevocationReason::of_text(list[index].1) {
            None => Err(Malformed::Invalid(Reason::RevocationReason)),
            Some(reason) => entombed(tombstones.insert(list[index].0, reason), list, index + 1),
        }
    }
}

/// What restoring a persisted document, floor and list of tombstones gives.
pub open spec fn restored_of(
    document: Seq<u8>,
    claim: Option<TrustClaim>,
    roots: (Seq<u8>, Seq<u8>),
    trusted_at: i128,
    list: Seq<(Seq<char>, Seq<char>)>,
) -> Result<TrustView, ReleaseError> {
    match trust_of(document, claim, roots, trusted_at, None) {
        Err(error) => Err(error),
        Ok(trust) => match entombed(trust.tombstones, list, 0) {
            Err(malformed) => Err(ReleaseError::TrustInvalid(malformed)),
            Ok(tombstones) => Ok(TrustView { tombstones, ..trust }),
        },
    }
}

/// The texts of pairs of strings.
pub open spec fn pairs_of(list: Seq<(String, String)>) -> Seq<(Seq<char>, Seq<char>)> {
    list.map_values(|pair: (String, String)| (pair.0@, pair.1@))
}

/// `list` holds every tombstone once, in the order of the subjects, with the word
/// for its reason.
pub open spec fn lists_tombstones(
    list: Seq<(Seq<char>, Seq<char>)>,
    tombstones: Map<Seq<char>, RevocationReason>,
) -> bool {
    &&& forall|i: int, j: int| 0 <= i < j < list.len() ==> text_before((#[trigger] list[i]).0, (#[trigger] list[j]).0)
    &&& forall|i: int|
        0 <= i < list.len() ==> tombstones.dom().contains((#[trigger] list[i]).0) && list[i].1
            == tombstones[list[i].0].text_spec()
    &&& forall|subject: Seq<char>| #[trigger]
        tombstones.dom().contains(subject) ==> exists|i: int| 0 <= i < list.len() && (#[trigger] list[i]).0 == subject
}

fn copy_tombstones(tombstones: &Table<RevocationReason>) -> (copied: Table<RevocationReason>)
    requires
        tombstones.wf(),
    ensures
        copied.wf(),
        copied@ == tombstones@,
{
    let mut entries: Vec<(String, RevocationReason)> = Vec::new();
    let mut index: usize = 0;
    while index < tombstones.entries.len()
        invariant
            index <= tombstones.entries.len(),
            entries@.len() == index,
            forall|i: int|
                0 <= i < index ==> (#[trigger] entries@[i]).0@ == tombstones.entries@[i].0@ && entries@[i].1
                    == tombstones.entries@[i].1,
        decreases tombstones.entries.len() - index,
    {
        let entry = &tombstones.entries[index];
        entries.push((entry.0.clone(), entry.1));
        index += 1;
    }
    let copied = Table { entries };
    proof {
        assert(copied.names() =~= tombstones.names());
        assert forall|name: Seq<char>| #[trigger] copied@.dom().contains(name) implies copied@[name]
            == tombstones@[name] by {
            let at = copied.names().index_of(name);
            assert(copied.names()[at] == name);
            copied.lemma_entry(at);
            tombstones.lemma_entry(at);
        }
        assert(copied@ =~= tombstones@);
    }
    copied
}

proof fn lemma_buried(tombstones: Map<Seq<char>, RevocationReason>, revoked: Seq<(Seq<char>, RevocationReason)>)
    ensures
        forall|subject: Seq<char>| #[trigger]
            tombstones.dom().contains(subject) ==> buried(tombstones, revoked).dom().contains(subject) && buried(
                tombstones,
                revoked,
            )[subject] == tombstones[subject],
        forall|index: int|
            0 <= index < revoked.len() && is_permanent((#[trigger] revoked[index]).0) ==> buried(
                tombstones,
                revoked,
            ).dom().contains(revoked[index].0),
        forall|subject: Seq<char>| #[trigger]
            buried(tombstones, revoked).dom().contains(subject) ==> tombstones.dom().contains(subject) || (
            is_permanent(subject) && exists|index: int| 0 <= index < revoked.len() && (#[trigger] revoked[index]).0 == subject),
    decreases revoked.len(),
{
    if revoked.len() > 0 {
        let before = revoked.drop_last();
        lemma_buried(tombstones, before);
        assert forall|index: int| 0 <= index < revoked.len() && is_permanent((#[trigger] revoked[index]).0) implies buried(
            tombstones,
            revoked,
        ).dom().contains(revoked[index].0) by {
            if index < before.len() {
                assert(before[index] == revoked[index]);
            }
        }
        assert forall|subject: Seq<char>| #[trigger]
            buried(tombstones, revoked).dom().contains(subject) implies tombstones.dom().contains(subject) || (
        is_permanent(subject) && exists|index: int| 0 <= index < revoked.len() && (#[trigger] revoked[index]).0 == subject) by {
            if buried(tombstones, before).dom().contains(subject) {
                if !tombstones.dom().contains(subject) {
                    let index = choose|index: int| 0 <= index < before.len() && (#[trigger] before[index]).0 == subject;
                    assert(revoked[index].0 == subject);
                }
            } else {
                assert(revoked[revoked.len() - 1].0 == subject);
            }
        }
    }
}

impl Trust {
    /// What holds of every accepted trust.
    pub closed spec fn wf(&self) -> bool {
        self.tombstones.wf() && trust_holds(self@)
    }

    fn authenticate(document: &[u8], payload: &Option<TrustPayload>, roots: &TrustRoots) -> (authentic: Result<
        (i128, i128),
        Malformed,
    >)
        ensures
            authentic == authenticated(
                document@,
                match payload {
                    Some(payload) => Some(payload@),
                    None => None,
                },
                roots@,
            ),
    {
        let signed = match SignedLine::parse(document, MAX_TRUST_BYTES) {
            Ok(signed) => signed,
            Err(malformed) => return Err(malformed),
        };
        let payload = match payload {
            Some(payload) => payload,
            None => return Err(Malformed::Json),
        };
        if !signed.verify(TRUST_DOMAIN, roots.first.as_slice()) && !signed.verify(TRUST_DOMAIN, roots.second.as_slice()) {
            return Err(Malformed::SignatureInvalid);
        }
        let issued = match timestamp(payload.issued.as_str()) {
            Ok(issued) => issued,
            Err(malformed) => return Err(malformed),
        };
        let expires = match timestamp(payload.expires.as_str()) {
            Ok(expires) => expires,
            Err(malformed) => return Err(malformed),
        };
        if issued > i128::MAX - TRUST_LIFETIME || expires != issued + TRUST_LIFETIME || payload.generation
            > 0x7fff_ffff_ffff_ffff {
            return Err(Malformed::Invalid(Reason::Lifetime));
        }
        if payload.keys.len() > MAX_KEYS || payload.revoked.len() > MAX_REVOCATIONS {
            return Err(Malformed::Invalid(Reason::TooMany));
        }
        match check_keys(&payload.keys, roots) {
            Ok(_) => {},
            Err(malformed) => return Err(malformed),
        }
        match check_revocations(&payload.revoked) {
            Ok(_) => {},
            Err(malformed) => return Err(malformed),
        }
        Ok((issued, expires))
    }

    /// Authenticates a proposed document and keeps what was revoked for good.
    ///
    /// `payload` is what the JSON decoder makes of the document's payload bytes.
    /// `now` is in nanoseconds since the start of 1970.
    pub fn verify(
        document: &[u8],
        payload: Option<TrustPayload>,
        roots: &TrustRoots,
        now: i128,
        previous: Option<&Trust>,
    ) -> (trust: Result<Trust, ReleaseError>)
        requires
            previous matches Some(previous) ==> previous.wf(),
        ensures
            ({
                let outcome = trust_of(
                    document@,
                    match payload {
                        Some(payload) => Some(payload@),
                        None => None,
                    },
                    roots@,
                    now,
                    match previous {
                        Some(previous) => Some(previous@),
                        None => None,
                    },
                );
                match trust {
                    Ok(trust) => trust.wf() && outcome == Ok::<TrustView, ReleaseError>(trust@),
                    Err(error) => outcome == Err::<TrustView, ReleaseError>(error),
                }
            }),
    {
        let (issued, expires_at) = match Trust::authenticate(document, &payload, roots) {
            Ok(authentic) => authentic,
            Err(malformed) => return Err(ReleaseError::TrustInvalid(malformed)),
        };
        let payload = match payload {
            Some(payload) => payload,
            None => return Err(ReleaseError::TrustInvalid(Malformed::Json)),
        };
        let mut trusted_at: i128 = if now < issued {
            issued
        } else {
            now
        };
        let mut tombstones: Table<RevocationReason> = Table::new();
        if let Some(previous) = previous {
            if payload.generation < previous.payload.generation || (payload.generation == previous.payload.generation
                && !same_bytes(document, previous.document.as_slice())) {
                return Err(ReleaseError::TrustRollback);
            }
            if trusted_at < previous.trusted_at {
                trusted_at = previous.trusted_at;
            }
            tombstones = copy_tombstones(&previous.tombstones);
        }
        let ghost before = tombstones@;
        let ghost listed = revocations_of(payload.revoked@);
        let mut index: usize = 0;
        assert(listed.take(0) =~= Seq::empty());
        while index < payload.revoked.len()
            invariant
                index <= payload.revoked.len(),
                listed == revocations_of(payload.revoked@),
                tombstones.wf(),
                tombstones@ == buried(before, listed.take(index as int)),
            decreases payload.revoked.len() - index,
        {
            let revocation = &payload.revoked[index];
            proof {
                assert(listed.take(index + 1).drop_last() =~= listed.take(index as int));
                assert(listed.take(index + 1).last() == (revocation.subject@, revocation.reason));
            }
            if permanent_subject(revocation.subject.as_str()) && !tombstones.contains(revocation.subject.as_str()) {
                tombstones.insert(revocation.subject.clone(), revocation.reason);
            }
            index += 1;
        }
        assert(listed.take(listed.len() as int) =~= listed);
        let trust = Trust {
            payload,
            document: vstd::slice::slice_to_vec(document),
            trusted_at,
            expires_at,
            tombstones,
        };
        proof {
            lemma_buried(before, listed);
            assert forall|index: int| 0 <= index < trust@.claim.keys.len() implies segment_bytes(
                (#[trigger] trust@.claim.keys[index]).1,
            ) is Ok by {
                lemma_no_key_fault(trust@.claim.keys, roots@, 0, index);
            }
        }
        Ok(trust)
    }

    /// Reauthenticates a persisted document and puts the persisted tombstones back.
    pub fn restore(
        document: &[u8],
        payload: Option<TrustPayload>,
        roots: &TrustRoots,
        trusted_at: i128,
        tombstones: &Vec<(String, String)>,
    ) -> (trust: Result<Trust, ReleaseError>)
        ensures
            ({
                let outcome = restored_of(
                    document@,
                    match payload {
                        Some(payload) => Some(payload@),
                        None => None,
                    },
                    roots@,
                    trusted_at,
                    pairs_of(tombstones@),
                );
                match trust {
                    Ok(trust) => trust.wf() && outcome == Ok::<TrustView, ReleaseError>(trust@),
                    Err(error) => outcome == Err::<TrustView, ReleaseError>(error),
                }
            }),
    {
        let mut trust = match Trust::verify(document, payload, roots, trusted_at, None) {
            Ok(trust) => trust,
            Err(error) => return Err(error),
        };
        let ghost base = trust@;
        let ghost list = pairs_of(tombstones@);
        let mut index: usize = 0;
        while index < tombstones.len()
            invariant
                index <= tombstones.len(),
                list == pairs_of(tombstones@),
                trust.wf(),
                trust@ == (TrustView { tombstones: trust@.tombstones, ..base }),
                entombed(base.tombstones, list, 0) == entombed(trust@.tombstones, list, index as int),
                restored_of(
                    document@,
                    match payload {
                        Some(payload) => Some(payload@),
                        None => None,
                    },
                    roots@,
                    trusted_at,
                    list,
                ) == match entombed(base.tombstones, list, 0) {
                    Err(malformed) => Err::<TrustView, ReleaseError>(ReleaseError::TrustInvalid(malformed)),
                    Ok(tombstones) => Ok::<TrustView, ReleaseError>(TrustView { tombstones, ..base }),
                },
            decreases tombstones.len() - index,
        {
            let pair = &tombstones[index];
            assert(list[index as int] == (pair.0@, pair.1@));
            if !permanent_subject(pair.0.as_str()) {
                return Err(ReleaseError::TrustInvalid(Malformed::Invalid(Reason::Tombstone)));
            }
            if subject_listed(tombstones, index, pair.0.as_str()) {
                return Err(ReleaseError::TrustInvalid(Malformed::Invalid(Reason::Tombstone)));
            }
            match RevocationReason::parse(pair.1.as_str()) {
                Err(malformed) => return Err(ReleaseError::TrustInvalid(malformed)),
                Ok(reason) => {
                    let ghost standing = trust@;
                    trust.tombstones.insert(pair.0.clone(), reason);
                    assert(trust@.tombstones == standing.tombstones.insert(pair.0@, reason));
                    assert(trust_holds(trust@));
                },
            }
            index += 1;
        }
        Ok(trust)
    }

    /// Whether trust has expired, by the later of the clock and its floor.
    pub fn is_stale(&self, now: i128) -> (result: bool)
        ensures
            result == stale(self@, now),
    {
        now >= self.expires_at || self.trusted_at >= self.expires_at
    }

    /// Requires fresh trust for a new installation or connection.
    pub fn require_fresh(&self, now: i128) -> (fresh: Result<(), ReleaseError>)
        ensures
            fresh == if stale(self@, now) {
                Err::<(), _>(ReleaseError::TrustStale)
            } else {
                Ok::<(), ReleaseError>(())
            },
    {
        if self.is_stale(now) {
            Err(ReleaseError::TrustStale)
        } else {
            Ok(())
        }
    }

    /// Raises the trusted-time floor, also while trust is stale.
    pub fn advance_time(&mut self, now: i128)
        requires
            old(self).wf(),
        ensures
            final(self).wf(),
            final(self)@ == (TrustView { trusted_at: later(old(self)@.trusted_at, now), ..old(self)@ }),
    {
        if self.trusted_at < now {
            self.trusted_at = now;
        }
    }

    fn revokes_subject(&self, subject: &str) -> (revoked: bool)
        requires
            self.wf(),
        ensures
            revoked == revokes(self@, subject@),
    {
        if self.tombstones.contains(subject) {
            return true;
        }
        let mut index: usize = 0;
        while index < self.payload.revoked.len()
            invariant
                index <= self.payload.revoked.len(),
                !self@.tombstones.dom().contains(subject@),
                forall|i: int| 0 <= i < index ==> (#[trigger] self@.claim.revoked[i]).0 != subject@,
            decreases self.payload.revoked.len() - index,
        {
            assert(self@.claim.revoked[index as int].0 == self.payload.revoked@[index as int].subject@);
            if same_text(self.payload.revoked[index].subject.as_str(), subject) {
                return true;
            }
            index += 1;
        }
        assert(self@.claim.revoked.len() == self.payload.revoked@.len());
        false
    }

    /// Requires that `subject` is not revoked.
    pub fn require_subject(&self, subject: &str) -> (standing: Result<(), ReleaseError>)
        requires
            self.wf(),
        ensures
            standing == if revokes(self@, subject@) {
                Err::<(), _>(ReleaseError::Revoked)
            } else {
                Ok::<(), ReleaseError>(())
            },
    {
        if self.revokes_subject(subject) {
            Err(ReleaseError::Revoked)
        } else {
            Ok(())
        }
    }

    /// Returns the accepted generation.
    pub fn generation(&self) -> (generation: u64)
        ensures
            generation == self@.claim.generation,
    {
        self.payload.generation
    }

    /// Returns the exact signed document.
    pub fn document(&self) -> (document: &[u8])
        ensures
            document@ == self@.document,
    {
        self.document.as_slice()
    }

    /// Returns the trusted-time floor to persist.
    pub fn trusted_at(&self) -> (instant: i128)
        ensures
            instant == self@.trusted_at,
    {
        self.trusted_at
    }

    /// Returns when the document expires.
    pub fn expires_at(&self) -> (instant: i128)
        ensures
            instant == self@.expires_at,
    {
        self.expires_at
    }

    /// Returns the subjects revoked for good and the words for the reasons.
    pub fn tombstones(&self) -> (list: Vec<(String, String)>)
        requires
            self.wf(),
        ensures
            lists_tombstones(pairs_of(list@), self@.tombstones),
    {
        let mut list: Vec<(String, String)> = Vec::new();
        let mut index: usize = 0;
        while index < self.tombstones.entries.len()
            invariant
                index <= self.tombstones.entries.len(),
                list@.len() == index,
                forall|i: int|
                    0 <= i < index ==> (#[trigger] list@[i]).0@ == self.tombstones.entries@[i].0@ && list@[i].1@
                        == self.tombstones.entries@[i].1.text_spec(),
            decreases self.tombstones.entries.len() - index,
        {
            let entry = &self.tombstones.entries[index];
            list.push((entry.0.clone(), entry.1.as_str().to_owned()));
            index += 1;
        }
        proof {
            let shown = pairs_of(list@);
            let names = self.tombstones.names();
            assert forall|i: int, j: int| 0 <= i < j < shown.len() implies text_before(
                (#[trigger] shown[i]).0,
                (#[trigger] shown[j]).0,
            ) by {
                assert(shown[i].0 == names[i]);
                assert(shown[j].0 == names[j]);
            }
            assert forall|i: int| 0 <= i < shown.len() implies self@.tombstones.dom().contains((#[trigger] shown[i]).0)
                && shown[i].1 == self@.tombstones[shown[i].0].text_spec() by {
                self.tombstones.lemma_entry(i);
                assert(shown[i] == (list@[i].0@, list@[i].1@));
            }
            assert forall|subject: Seq<char>| #[trigger] self@.tombstones.dom().contains(subject) implies exists|i: int|
                0 <= i < shown.len() && (#[trigger] shown[i]).0 == subject by {
                let at = names.index_of(subject);
                assert(names[at] == subject);
                assert(shown[at].0 == subject);
            }
        }
        list
    }
}

/// Whether `subject` stands in `list` before `end`.
fn subject_listed(list: &Vec<(String, String)>, end: usize, subject: &str) -> (listed: bool)
    requires
        end <= list@.len(),
    ensures
        listed == exists|index: int| 0 <= index < end && (#[trigger] pairs_of(list@)[index]).0 == subject@,
{
    let mut index: usize = 0;
    while index < end
        invariant
            index <= end <= list@.len(),
            forall|i: int| 0 <= i < index ==> (#[trigger] pairs_of(list@)[i]).0 != subject@,
        decreases end - index,
    {
        assert(pairs_of(list@)[index as int].0 == list@[index as int].0@);
        if same_text(list[index].0.as_str(), subject) {
            return true;
        }
        index += 1;
    }
    false
}

/// What was revoked for good stays revoked, for the reason first given, whatever
/// later documents say or leave out.
pub proof fn law_tombstones_survive(
    document: Seq<u8>,
    claim: Option<TrustClaim>,
    roots: (Seq<u8>, Seq<u8>),
    now: i128,
    previous: TrustView,
    subject: Seq<char>,
)
    requires
        previous.tombstones.dom().contains(subject),
        trust_of(document, claim, roots, now, Some(previous)) is Ok,
    ensures
        ({
            let next = trust_of(document, claim, roots, now, Some(previous))->Ok_0;
            &&& next.tombstones.dom().contains(subject)
            &&& next.tombstones[subject] == previous.tombstones[subject]
            &&& revokes(next, subject)
        }),
{
    lemma_buried(previous.tombstones, claim->0.revoked);
}

/// Trust never goes back: the generation does not fall, one generation has one
/// document, and the trusted-time floor does not fall.
pub proof fn law_trust_never_goes_back(
    document: Seq<u8>,
    claim: Option<TrustClaim>,
    roots: (Seq<u8>, Seq<u8>),
    now: i128,
    previous: TrustView,
)
    requires
        trust_of(document, claim, roots, now, Some(previous)) is Ok,
    ensures
        ({
            let next = trust_of(document, claim, roots, now, Some(previous))->Ok_0;
            &&& next.claim.generation >= previous.claim.generation
            &&& next.claim.generation == previous.claim.generation ==> next.document == previous.document
            &&& next.trusted_at >= previous.trusted_at
            &&& next.trusted_at >= now
        }),
{
}

/// Trust that was stale once is stale at every later look, also when its document
/// is presented again with an earlier clock.
pub proof fn law_stale_stays_stale(
    claim: Option<TrustClaim>,
    roots: (Seq<u8>, Seq<u8>),
    now: i128,
    previous: TrustView,
    clock: i128,
)
    requires
        stale(previous, previous.trusted_at),
        claim == Some(previous.claim),
        instant_of(previous.claim.expires) == Ok::<i128, Malformed>(previous.expires_at),
        trust_of(previous.document, claim, roots, now, Some(previous)) is Ok,
    ensures
        stale(trust_of(previous.document, claim, roots, now, Some(previous))->Ok_0, clock),
{
}

/// What holds of every trust value: what the laws on accepted trust ask for.
pub proof fn lemma_wf(trust: &Trust)
    requires
        trust.wf(),
    ensures
        trust_holds(trust@),
{
}

/// Trust that a document gives is accepted under the roots that it was checked with.
pub proof fn law_verified_trust_is_accepted(
    document: Seq<u8>,
    claim: Option<TrustClaim>,
    roots: (Seq<u8>, Seq<u8>),
    now: i128,
    previous: Option<TrustView>,
)
    requires
        previous matches Some(previous) ==> trust_holds(previous),
        trust_of(document, claim, roots, now, previous) is Ok,
    ensures
        accepted_under(trust_of(document, claim, roots, now, previous)->Ok_0, roots),
{
    let trust = trust_of(document, claim, roots, now, previous)->Ok_0;
    let before = match previous {
        Some(previous) => previous.tombstones,
        None => Map::empty(),
    };
    lemma_buried(before, trust.claim.revoked);
    assert forall|index: int| 0 <= index < trust.claim.keys.len() implies segment_bytes(
        (#[trigger] trust.claim.keys[index]).1,
    ) is Ok by {
        lemma_no_key_fault(trust.claim.keys, roots, 0, index);
    }
}

/// Trust that was restored is accepted under the roots that it was checked with.
pub proof fn law_restored_trust_is_accepted(
    document: Seq<u8>,
    claim: Option<TrustClaim>,
    roots: (Seq<u8>, Seq<u8>),
    trusted_at: i128,
    list: Seq<(Seq<char>, Seq<char>)>,
)
    requires
        restored_of(document, claim, roots, trusted_at, list) is Ok,
    ensures
        accepted_under(restored_of(document, claim, roots, trusted_at, list)->Ok_0, roots),
{
    law_verified_trust_is_accepted(document, claim, roots, trusted_at, None);
    let base = trust_of(document, claim, roots, trusted_at, None)->Ok_0;
    lemma_entombed_grows(base.tombstones, list, 0);
}

proof fn lemma_entombed_grows(
    tombstones: Map<Seq<char>, RevocationReason>,
    list: Seq<(Seq<char>, Seq<char>)>,
    index: int,
)
    requires
        0 <= index,
        entombed(tombstones, list, index) is Ok,
        forall|subject: Seq<char>| #[trigger] tombstones.dom().contains(subject) ==> is_permanent(subject),
    ensures
        forall|subject: Seq<char>| #[trigger]
            tombstones.dom().contains(subject) ==> entombed(tombstones, list, index)->Ok_0.dom().contains(subject),
        forall|subject: Seq<char>| #[trigger]
            entombed(tombstones, list, index)->Ok_0.dom().contains(subject) ==> is_permanent(subject),
    decreases list.len() - index,
{
    if index < list.len() {
        let reason = RevocationReason::of_text(list[index].1)->0;
        let next = tombstones.insert(list[index].0, reason);
        lemma_entombed_grows(next, list, index + 1);
        assert(forall|subject: Seq<char>| #[trigger] tombstones.dom().contains(subject) ==> next.dom().contains(subject));
    }
}

/// Trust stays accepted as time goes on.
pub proof fn law_time_keeps_trust_accepted(trust: TrustView, roots: (Seq<u8>, Seq<u8>), now: i128)
    requires
        accepted_under(trust, roots),
    ensures
        accepted_under(TrustView { trusted_at: later(trust.trusted_at, now), ..trust }, roots),
{
}

/// A name that is not revoked for good is free again once a later document leaves
/// it out.
pub proof fn law_name_revocations_can_end(trust: TrustView, subject: Seq<char>)
    requires
        trust_holds(trust),
        !is_permanent(subject),
        forall|index: int| 0 <= index < trust.claim.revoked.len() ==> (#[trigger] trust.claim.revoked[index]).0 != subject,
    ensures
        !revokes(trust, subject),
{
}

/// What was persisted is restored: of trust that was accepted, the document, the floor and
/// the list of tombstones give the same trust back.
pub proof fn law_persisted_trust_is_restored(trust: TrustView, roots: (Seq<u8>, Seq<u8>), list: Seq<(Seq<char>, Seq<char>)>)
    requires
        accepted_under(trust, roots),
        lists_tombstones(list, trust.tombstones),
    ensures
        restored_of(trust.document, Some(trust.claim), roots, trust.trusted_at, list) == Ok::<TrustView, ReleaseError>(
            trust,
        ),
{
    let base = trust_of(trust.document, Some(trust.claim), roots, trust.trusted_at, None)->Ok_0;
    assert(base.trusted_at == trust.trusted_at);
    lemma_buried(Map::empty(), trust.claim.revoked);
    assert forall|i: int, j: int| 0 <= i < j < list.len() implies (#[trigger] list[i]).0 != (#[trigger] list[j]).0 by {
        lemma_text_order(list[i].0, list[j].0);
    }
    lemma_entombed(base.tombstones, list, 0, trust.tombstones);
    let tombstones = entombed(base.tombstones, list, 0)->Ok_0;
    assert forall|subject: Seq<char>| tombstones.dom().contains(subject) <==> trust.tombstones.dom().contains(
        subject,
    ) by {
        if trust.tombstones.dom().contains(subject) {
            let i = choose|i: int| 0 <= i < list.len() && (#[trigger] list[i]).0 == subject;
            assert(list[i].0 == subject);
        }
    }
    assert forall|subject: Seq<char>| tombstones.dom().contains(subject) implies tombstones[subject]
        == trust.tombstones[subject] by {
        let i = choose|i: int| 0 <= i < list.len() && (#[trigger] list[i]).0 == subject;
        assert(list[i].0 == subject);
    }
    assert(tombstones =~= trust.tombstones);
}

/// Trust survives being persisted: what a document gives is restored from the document, the
/// floor and the list of tombstones, however late it is persisted.
pub proof fn law_verified_trust_survives_persistence(
    document: Seq<u8>,
    claim: Option<TrustClaim>,
    roots: (Seq<u8>, Seq<u8>),
    now: i128,
    previous: Option<TrustView>,
    clock: i128,
    list: Seq<(Seq<char>, Seq<char>)>,
)
    requires
        previous matches Some(previous) ==> trust_holds(previous),
        trust_of(document, claim, roots, now, previous) is Ok,
        lists_tombstones(list, trust_of(document, claim, roots, now, previous)->Ok_0.tombstones),
    ensures
        ({
            let trust = trust_of(document, claim, roots, now, previous)->Ok_0;
            let aged = TrustView { trusted_at: later(trust.trusted_at, clock), ..trust };
            restored_of(document, claim, roots, aged.trusted_at, list) == Ok::<TrustView, ReleaseError>(aged)
        }),
{
    let trust = trust_of(document, claim, roots, now, previous)->Ok_0;
    let aged = TrustView { trusted_at: later(trust.trusted_at, clock), ..trust };
    law_verified_trust_is_accepted(document, claim, roots, now, previous);
    law_time_keeps_trust_accepted(trust, roots, clock);
    law_persisted_trust_is_restored(aged, roots, list);
}

proof fn lemma_entombed(
    tombstones: Map<Seq<char>, RevocationReason>,
    list: Seq<(Seq<char>, Seq<char>)>,
    index: int,
    expected: Map<Seq<char>, RevocationReason>,
)
    requires
        0 <= index <= list.len(),
        forall|i: int, j: int| 0 <= i < j < list.len() ==> (#[trigger] list[i]).0 != (#[trigger] list[j]).0,
        forall|i: int|
            0 <= i < list.len() ==> expected.dom().contains((#[trigger] list[i]).0) && is_permanent(list[i].0)
                && list[i].1 == expected[list[i].0].text_spec(),
    ensures
        entombed(tombstones, list, index) is Ok,
        ({
            let result = entombed(tombstones, list, index)->Ok_0;
            &&& forall|i: int|
                index <= i < list.len() ==> result.dom().contains((#[trigger] list[i]).0) && result[list[i].0]
                    == expected[list[i].0]
            &&& forall|subject: Seq<char>| #[trigger]
                result.dom().contains(subject) ==> tombstones.dom().contains(subject) || exists|i: int|
                    index <= i < list.len() && (#[trigger] list[i]).0 == subject
            &&& forall|subject: Seq<char>|
                tombstones.dom().contains(subject) && (forall|i: int|
                    index <= i < list.len() ==> (#[trigger] list[i]).0 != subject) ==> #[trigger] result.dom().contains(
                    subject,
                ) && result[subject] == tombstones[subject]
        }),
    decreases list.len() - index,
{
    if index < list.len() {
        law_reason_reads_back(expected[list[index].0]);
        let reason = expected[list[index].0];
        let next = tombstones.insert(list[index].0, reason);
        lemma_entombed(next, list, index + 1, expected);
        let result = entombed(tombstones, list, index)->Ok_0;
        assert(result == entombed(next, list, index + 1)->Ok_0);
        assert forall|i: int| index <= i < list.len() implies result.dom().contains((#[trigger] list[i]).0)
            && result[list[i].0] == expected[list[i].0] by {
            if i == index {
                assert(next.dom().contains(list[i].0));
                assert(forall|j: int| index + 1 <= j < list.len() ==> (#[trigger] list[j]).0 != list[i].0);
            }
        }
        assert forall|subject: Seq<char>| #[trigger] result.dom().contains(subject) implies tombstones.dom().contains(
            subject,
        ) || exists|i: int| index <= i < list.len() && (#[trigger] list[i]).0 == subject by {
            if next.dom().contains(subject) {
                if subject == list[index].0 {
                    assert(list[index].0 == subject);
                }
            }
        }
        assert forall|subject: Seq<char>|
            tombstones.dom().contains(subject) && (forall|i: int|
                index <= i < list.len() ==> (#[trigger] list[i]).0 != subject) implies #[trigger] result.dom().contains(
            subject,
        ) && result[subject] == tombstones[subject] by {
            assert(list[index].0 != subject);
            assert(next.dom().contains(subject));
        }
    }
}

/// The exact length and digest of a signed object.
#[derive(Debug)]
pub struct ObjectIdentity {
    pub digest: String,
    pub bytes: u64,
}

/// What an object identity says.
pub ghost struct ObjectView {
    pub digest: Seq<char>,
    pub bytes: u64,
}

impl View for ObjectIdentity {
    type V = ObjectView;

    open spec fn view(&self) -> ObjectView {
        ObjectView { digest: self.digest@, bytes: self.bytes }
    }
}

/// A digest, and a length between one and `maximum`.
pub open spec fn is_object(object: ObjectView, maximum: u64) -> bool {
    is_digest(object.digest) && 0 < object.bytes <= maximum
}

/// `bytes` are the object: they have its length and its digest.
pub open spec fn identifies(object: ObjectView, bytes: Seq<u8>) -> bool {
    bytes.len() == object.bytes && digest_of(bytes) == object.digest
}

impl ObjectIdentity {
    /// Checks the digest and the bound of the length.
    pub fn validate(&self, maximum: u64) -> (valid: Result<(), Malformed>)
        ensures
            valid == if is_object(self@, maximum) {
                Ok::<(), Malformed>(())
            } else {
                Err::<(), _>(Malformed::Invalid(Reason::Object))
            },
    {
        if !valid_digest(self.digest.as_str()) || self.bytes == 0 || self.bytes > maximum {
            return Err(Malformed::Invalid(Reason::Object));
        }
        Ok(())
    }

    /// Checks that `bytes` are exactly the object.
    pub fn verify(&self, bytes: &[u8]) -> (verified: Result<(), ReleaseError>)
        ensures
            verified == if identifies(self@, bytes@) {
                Ok::<(), ReleaseError>(())
            } else {
                Err::<(), _>(ReleaseError::DigestMismatch)
            },
    {
        if bytes.len() as u64 != self.bytes || !same_text(digest(bytes).as_str(), self.digest.as_str()) {
            return Err(ReleaseError::DigestMismatch);
        }
        Ok(())
    }
}

/// The signed contents of a release envelope.
#[derive(Debug)]
pub struct ReleasePayload {
    pub extension: String,
    pub version: String,
    pub publisher: String,
    pub manifest: ObjectIdentity,
    pub component: ObjectIdentity,
    pub key: String,
}

/// What a release envelope claims.
pub ghost struct ReleaseClaim {
    pub extension: Seq<char>,
    pub version: Seq<char>,
    pub publisher: Seq<char>,
    pub manifest: ObjectView,
    pub component: ObjectView,
    pub key: Seq<char>,
}

impl View for ReleasePayload {
    type V = ReleaseClaim;

    open spec fn view(&self) -> ReleaseClaim {
        ReleaseClaim {
            extension: self.extension@,
            version: self.version@,
            publisher: self.publisher@,
            manifest: self.manifest@,
            component: self.component@,
            key: self.key@,
        }
    }
}

/// A control character.
pub open spec fn control(character: char) -> bool {
    character <= '\u{1f}' || '\u{7f}' <= character <= '\u{9f}'
}

/// A character that changes the direction of text.
pub open spec fn directional(character: char) -> bool {
    character == '\u{61c}' || '\u{200e}' <= character <= '\u{200f}' || '\u{202a}' <= character <= '\u{202e}'
        || '\u{2066}' <= character <= '\u{2069}'
}

/// A display name: one to 64 characters, none of them a control character or one
/// that changes the direction of text.
pub open spec fn is_publisher(text: Seq<char>) -> bool {
    &&& 0 < text.len() <= 64
    &&& forall|index: int| 0 <= index < text.len() ==> shown_character(#[trigger] text[index])
}

/// A character that a display name may hold.
pub open spec fn shown_character(character: char) -> bool {
    !control(character) && !directional(character)
}

fn valid_publisher(publisher: &str) -> (valid: bool)
    ensures
        valid == is_publisher(publisher@),
{
    let characters = chars_of(publisher);
    if characters.len() == 0 || characters.len() > 64 {
        return false;
    }
    let mut index: usize = 0;
    while index < characters.len()
        invariant
            index <= characters.len(),
            characters@ == publisher@,
            forall|i: int| 0 <= i < index ==> shown_character(#[trigger] publisher@[i]),
        decreases characters.len() - index,
    {
        let c = characters[index];
        if c <= '\u{1f}' || ('\u{7f}' <= c && c <= '\u{9f}') || c == '\u{61c}' || ('\u{200e}' <= c && c <= '\u{200f}')
            || ('\u{202a}' <= c && c <= '\u{202e}') || ('\u{2066}' <= c && c <= '\u{2069}') {
            assert(!shown_character(publisher@[index as int]));
            return false;
        }
        index += 1;
    }
    true
}

/// What is wrong with the claims of a release whose version denotes `version`, if
/// anything.
pub open spec fn claims_fault(claim: ReleaseClaim, version: Option<SemanticVersionView>) -> Option<Malformed> {
    match version {
        None => Some(Malformed::Invalid(Reason::Version)),
        Some(version) => if !is_extension_name(claim.extension) || version.text != claim.version || version.build.len()
            != 0 || !is_key_id(claim.key) || !is_publisher(claim.publisher) {
            Some(Malformed::Invalid(Reason::Identity))
        } else if !is_object(claim.manifest, MAX_RELEASE_MANIFEST) || !is_object(
            claim.component,
            MAX_RELEASE_COMPONENT,
        ) {
            Some(Malformed::Invalid(Reason::Object))
        } else {
            None
        },
    }
}

/// What is wrong with the claims of a release, if anything.
pub open spec fn release_fault(claim: ReleaseClaim) -> Option<Malformed> {
    claims_fault(claim, semantic_version(claim.version))
}

impl ReleasePayload {
    /// Checks the claims of a release whose version denotes `version`.
    pub fn validate_claims(&self, version: Option<SemanticVersion>) -> (valid: Result<(), Malformed>)
        ensures
            match valid {
                Ok(_) => claims_fault(self@, version_view(version)) is None,
                Err(malformed) => claims_fault(self@, version_view(version)) == Some(malformed),
            },
    {
        let version = match version {
            Some(version) => version,
            None => return Err(Malformed::Invalid(Reason::Version)),
        };
        if !extension_name(self.extension.as_str()) || !same_text(version.text.as_str(), self.version.as_str())
            || !version.build.as_str().is_empty() || !key_id(self.key.as_str()) || !valid_publisher(
            self.publisher.as_str(),
        ) {
            return Err(Malformed::Invalid(Reason::Identity));
        }
        match self.manifest.validate(MAX_RELEASE_MANIFEST) {
            Ok(_) => {},
            Err(malformed) => return Err(malformed),
        }
        self.component.validate(MAX_RELEASE_COMPONENT)
    }

    /// Checks the claims of a release.
    pub fn validate(&self) -> (valid: Result<(), Malformed>)
        ensures
            match valid {
                Ok(_) => release_fault(self@) is None,
                Err(malformed) => release_fault(self@) == Some(malformed),
            },
    {
        self.validate_claims(parse_version(self.version.as_str()))
    }
}

/// An exact release envelope that an accepted key has signed.
#[derive(Debug)]
pub struct Release {
    payload: ReleasePayload,
    envelope: Vec<u8>,
    digest: String,
}

/// What an authentic release holds.
pub ghost struct ReleaseView {
    pub claim: ReleaseClaim,
    pub envelope: Seq<u8>,
    pub digest: Seq<char>,
}

impl View for Release {
    type V = ReleaseView;

    closed spec fn view(&self) -> ReleaseView {
        ReleaseView { claim: self.payload@, envelope: self.envelope@, digest: self.digest@ }
    }
}

/// The written public key under the first name that is `id`.
pub open spec fn key_named(keys: Seq<(Seq<char>, Seq<char>, KeyState)>, id: Seq<char>) -> Option<Seq<char>>
    decreases keys.len(),
{
    if keys.len() == 0 {
        None
    } else if keys[0].0 == id {
        Some(keys[0].1)
    } else {
        key_named(keys.drop_first(), id)
    }
}

/// What trust makes of an envelope whose payload decodes to `claim`. A revoked key
/// is refused before it is looked up.
pub open spec fn release_of(envelope: Seq<u8>, claim: Option<ReleaseClaim>, trust: TrustView) -> Result<
    ReleaseView,
    ReleaseError,
> {
    match signed_line(envelope, MAX_RELEASE_BYTES as int) {
        Err(malformed) => Err(ReleaseError::Malformed(malformed)),
        Ok(line) => match claim {
            None => Err(ReleaseError::Malformed(Malformed::Json)),
            Some(claim) => if release_fault(claim) is Some {
                Err(ReleaseError::Malformed(release_fault(claim)->0))
            } else if revokes(trust, "key:"@ + claim.key) {
                Err(ReleaseError::Revoked)
            } else {
                match key_named(trust.claim.keys, claim.key) {
                    None => Err(ReleaseError::KeyUnknown),
                    Some(public) => match segment_bytes(public) {
                        Err(malformed) => Err(ReleaseError::Malformed(malformed)),
                        Ok(key) => if line_verifies(line, RELEASE_DOMAIN@, key) {
                            Ok(ReleaseView { claim, envelope, digest: digest_of(envelope) })
                        } else {
                            Err(ReleaseError::Malformed(Malformed::SignatureInvalid))
                        },
                    },
                }
            },
        },
    }
}

/// Trust revokes the release: its envelope, its component, its key or its name.
pub open spec fn release_revoked(trust: TrustView, release: ReleaseView) -> bool {
    revokes(trust, release.digest) || revokes(trust, release.claim.component.digest) || revokes(
        trust,
        "key:"@ + release.claim.key,
    ) || revokes(trust, release.claim.extension)
}

impl Trust {
    /// Rechecks a release that is installed; freshness is no condition.
    pub fn require_release(&self, release: &Release) -> (standing: Result<(), ReleaseError>)
        requires
            self.wf(),
        ensures
            standing == if release_revoked(self@, release@) {
                Err::<(), _>(ReleaseError::Revoked)
            } else {
                Ok::<(), ReleaseError>(())
            },
    {
        let key = joined("key:", release.payload.key.as_str());
        if self.revokes_subject(release.digest.as_str()) || self.revokes_subject(
            release.payload.component.digest.as_str(),
        ) || self.revokes_subject(key.as_str()) || self.revokes_subject(release.payload.extension.as_str()) {
            Err(ReleaseError::Revoked)
        } else {
            Ok(())
        }
    }

    /// Returns the written public key of the release key named `id`.
    fn find_key(&self, id: &str) -> (public: Option<&str>)
        ensures
            match public {
                Some(public) => key_named(self@.claim.keys, id@) == Some(public@),
                None => key_named(self@.claim.keys, id@) is None,
            },
    {
        let ghost listed = self@.claim.keys;
        let mut index: usize = 0;
        assert(listed.skip(0) =~= listed);
        while index < self.payload.keys.len()
            invariant
                index <= self.payload.keys.len(),
                listed == keys_of(self.payload.keys@),
                key_named(listed, id@) == key_named(listed.skip(index as int), id@),
                listed == self@.claim.keys,
            decreases self.payload.keys.len() - index,
        {
            assert(listed.skip(index as int)[0] == (
                self.payload.keys@[index as int].id@,
                self.payload.keys@[index as int].public@,
                self.payload.keys@[index as int].state,
            ));
            if same_text(self.payload.keys[index].id.as_str(), id) {
                return Some(self.payload.keys[index].public.as_str());
            }
            assert(listed.skip(index as int).drop_first() =~= listed.skip(index + 1));
            index += 1;
        }
        None
    }
}

impl Release {
    /// Authenticates an exact envelope under the accepted release keys.
    ///
    /// `payload` is what the JSON decoder makes of the envelope's payload bytes.
    pub fn verify(envelope: &[u8], payload: Option<ReleasePayload>, trust: &Trust) -> (release: Result<
        Release,
        ReleaseError,
    >)
        requires
            trust.wf(),
        ensures
            ({
                let outcome = release_of(
                    envelope@,
                    match payload {
                        Some(payload) => Some(payload@),
                        None => None,
                    },
                    trust@,
                );
                match release {
                    Ok(release) => outcome == Ok::<ReleaseView, ReleaseError>(release@),
                    Err(error) => outcome == Err::<ReleaseView, ReleaseError>(error),
                }
            }),
    {
        let signed = match SignedLine::parse(envelope, MAX_RELEASE_BYTES) {
            Ok(signed) => signed,
            Err(malformed) => return Err(ReleaseError::Malformed(malformed)),
        };
        let payload = match payload {
            Some(payload) => payload,
            None => return Err(ReleaseError::Malformed(Malformed::Json)),
        };
        match payload.validate() {
            Ok(_) => {},
            Err(malformed) => return Err(ReleaseError::Malformed(malformed)),
        }
        let subject = joined("key:", payload.key.as_str());
        if trust.revokes_subject(subject.as_str()) {
            return Err(ReleaseError::Revoked);
        }
        let public = match trust.find_key(payload.key.as_str()) {
            Some(public) => public,
            None => return Err(ReleaseError::KeyUnknown),
        };
        let key = match decode(public) {
            Ok(key) => key,
            Err(malformed) => return Err(ReleaseError::Malformed(malformed)),
        };
        if !signed.verify(RELEASE_DOMAIN, key.as_slice()) {
            return Err(ReleaseError::Malformed(Malformed::SignatureInvalid));
        }
        Ok(Release { payload, envelope: vstd::slice::slice_to_vec(envelope), digest: digest(envelope) })
    }

    /// Checks the length and digest of the component.
    pub fn verify_component(&self, component: &[u8]) -> (verified: Result<(), ReleaseError>)
        ensures
            verified == if identifies(self@.claim.component, component@) {
                Ok::<(), ReleaseError>(())
            } else {
                Err::<(), _>(ReleaseError::DigestMismatch)
            },
    {
        self.payload.component.verify(component)
    }

    /// Checks the length and digest of the manifest that the component embeds.
    pub fn verify_manifest(&self, manifest: &[u8]) -> (verified: Result<(), ReleaseError>)
        ensures
            verified == if identifies(self@.claim.manifest, manifest@) {
                Ok::<(), ReleaseError>(())
            } else {
                Err::<(), _>(ReleaseError::DigestMismatch)
            },
    {
        self.payload.manifest.verify(manifest)
    }

    /// Requires that the embedded declaration names this release.
    pub fn require_identity(&self, name: &str, version: &str) -> (same: Result<(), ReleaseError>)
        ensures
            same == if self@.claim.extension == name@ && self@.claim.version == version@ {
                Ok::<(), ReleaseError>(())
            } else {
                Err::<(), _>(ReleaseError::Malformed(Malformed::Invalid(Reason::IdentityMismatch)))
            },
    {
        if !same_text(self.payload.extension.as_str(), name) || !same_text(self.payload.version.as_str(), version) {
            return Err(ReleaseError::Malformed(Malformed::Invalid(Reason::IdentityMismatch)));
        }
        Ok(())
    }

    /// Returns the digest of the whole envelope.
    pub fn digest(&self) -> (digest: &str)
        ensures
            digest@ == self@.digest,
    {
        self.digest.as_str()
    }

    /// Returns the exact envelope.
    pub fn envelope(&self) -> (envelope: &[u8])
        ensures
            envelope@ == self@.envelope,
    {
        self.envelope.as_slice()
    }

    /// Returns the signed name of the extension.
    pub fn extension(&self) -> (extension: &str)
        ensures
            extension@ == self@.claim.extension,
    {
        self.payload.extension.as_str()
    }

    /// Returns the signed version.
    pub fn version(&self) -> (version: &str)
        ensures
            version@ == self@.claim.version,
    {
        self.payload.version.as_str()
    }

    /// Returns the name of the release key.
    pub fn key(&self) -> (key: &str)
        ensures
            key@ == self@.claim.key,
    {
        self.payload.key.as_str()
    }

    /// Returns the display name of the publisher.
    pub fn publisher(&self) -> (publisher: &str)
        ensures
            publisher@ == self@.claim.publisher,
    {
        self.payload.publisher.as_str()
    }

    /// Returns the digest that the component must have.
    pub fn component_digest(&self) -> (digest: &str)
        ensures
            digest@ == self@.claim.component.digest,
    {
        self.payload.component.digest.as_str()
    }

    /// Returns the digest that the embedded manifest must have.
    pub fn manifest_digest(&self) -> (digest: &str)
        ensures
            digest@ == self@.claim.manifest.digest,
    {
        self.payload.manifest.digest.as_str()
    }
}

/// The name and version of a parsed manifest, or the findings that refuse it.
pub type ParsedIdentity = Result<(String, String), Vec<Finding>>;

/// The texts of a parsed manifest's name and version.
pub open spec fn identity_of(manifest: ParsedIdentity) -> Option<(Seq<char>, Seq<char>)> {
    match manifest {
        Ok((name, version)) => Some((name@, version@)),
        Err(_) => None,
    }
}

/// Why an authentic release is not admitted with these bytes, if it is not.
/// Exact bytes are compared before anything in them is looked at.
pub open spec fn admission_fault(
    release: ReleaseView,
    component: Seq<u8>,
    manifest: ParsedIdentity,
    trust: TrustView,
) -> Option<ReleaseError> {
    if !identifies(release.claim.component, component) {
        Some(ReleaseError::DigestMismatch)
    } else {
        match manifest_of(component) {
            Err(rejection) => Some(ReleaseError::Component(ComponentError::Rejected(rejection))),
            Ok(embedded) => if !identifies(release.claim.manifest, embedded) {
                Some(ReleaseError::DigestMismatch)
            } else {
                match manifest {
                    Err(findings) => Some(ReleaseError::Manifest(findings)),
                    Ok((name, version)) => if name@ != release.claim.extension || version@ != release.claim.version {
                        Some(ReleaseError::Malformed(Malformed::Invalid(Reason::IdentityMismatch)))
                    } else if release_revoked(trust, release) {
                        Some(ReleaseError::Revoked)
                    } else {
                        None
                    },
                }
            },
        }
    }
}

/// Decides whether a signed release is admitted with exactly these component
/// bytes, before the component is instantiated.
///
/// `payload` is what the JSON decoder makes of the envelope's payload bytes, and
/// `manifest` what the manifest parser makes of the embedded manifest.
pub fn admit_release(
    envelope: &[u8],
    component: &[u8],
    payload: Option<ReleasePayload>,
    manifest: ParsedIdentity,
    trust: &Trust,
) -> (admitted: Result<Release, ReleaseError>)
    requires
        trust.wf(),
    ensures
        if envelope@.len() == 0 {
            admitted == Err::<Release, _>(ReleaseError::Unsigned)
        } else {
            match release_of(
                envelope@,
                match payload {
                    Some(payload) => Some(payload@),
                    None => None,
                },
                trust@,
            ) {
                Err(error) => admitted == Err::<Release, _>(error),
                Ok(release) => match admission_fault(release, component@, manifest, trust@) {
                    Some(error) => admitted == Err::<Release, _>(error),
                    None => admitted matches Ok(admitted) && admitted@ == release,
                },
            }
        },
{
    if envelope.len() == 0 {
        return Err(ReleaseError::Unsigned);
    }
    let release = match Release::verify(envelope, payload, trust) {
        Ok(release) => release,
        Err(error) => return Err(error),
    };
    match release.verify_component(component) {
        Ok(_) => {},
        Err(error) => return Err(error),
    }
    let embedded = match extract_manifest(component) {
        Ok(embedded) => embedded,
        Err(error) => return Err(ReleaseError::Component(error)),
    };
    match release.verify_manifest(embedded) {
        Ok(_) => {},
        Err(error) => return Err(error),
    }
    let (name, version) = match manifest {
        Ok(identity) => identity,
        Err(findings) => return Err(ReleaseError::Manifest(findings)),
    };
    match release.require_identity(name.as_str(), version.as_str()) {
        Ok(_) => {},
        Err(error) => return Err(error),
    }
    match trust.require_release(&release) {
        Ok(_) => {},
        Err(error) => return Err(error),
    }
    Ok(release)
}

/// A key that was revoked once signs no release again, whether or not a later
/// document lists it.
pub proof fn law_revoked_key_never_signs(
    envelope: Seq<u8>,
    claim: ReleaseClaim,
    document: Seq<u8>,
    update: Option<TrustClaim>,
    roots: (Seq<u8>, Seq<u8>),
    now: i128,
    previous: TrustView,
)
    requires
        previous.tombstones.dom().contains("key:"@ + claim.key),
        trust_of(document, update, roots, now, Some(previous)) is Ok,
    ensures
        release_of(envelope, Some(claim), trust_of(document, update, roots, now, Some(previous))->Ok_0) is Err,
{
    law_tombstones_survive(document, update, roots, now, previous, "key:"@ + claim.key);
}

/// What is admitted is what was signed: an admitted release names the digest of
/// exactly these component bytes and of the manifest in them.
pub proof fn law_admitted_bytes_are_signed_bytes(
    release: ReleaseView,
    component: Seq<u8>,
    manifest: ParsedIdentity,
    trust: TrustView,
)
    requires
        admission_fault(release, component, manifest, trust) is None,
    ensures
        digest_of(component) == release.claim.component.digest,
        component.len() == release.claim.component.bytes,
        manifest_of(component) is Ok,
        digest_of(manifest_of(component)->Ok_0) == release.claim.manifest.digest,
        identity_of(manifest) == Some((release.claim.extension, release.claim.version)),
        !release_revoked(trust, release),
{
}

/// Signing a release anew changes its envelope alone: two authentic envelopes of one claim
/// are told apart by nothing but their exact bytes.
pub proof fn law_resigning_changes_only_the_envelope(
    first: Seq<u8>,
    second: Seq<u8>,
    claim: ReleaseClaim,
    trust: TrustView,
)
    requires
        release_of(first, Some(claim), trust) is Ok,
        release_of(second, Some(claim), trust) is Ok,
    ensures
        ({
            let one = release_of(first, Some(claim), trust)->Ok_0;
            let other = release_of(second, Some(claim), trust)->Ok_0;
            &&& one.claim == other.claim
            &&& one.envelope == first && one.digest == digest_of(first)
            &&& other == (ReleaseView { envelope: second, digest: digest_of(second), ..one })
        }),
{
}

/// Time takes nothing from an installed release: however late it gets, trust that is stale
/// by then authenticates the same releases and revokes no others.
pub proof fn law_expired_trust_keeps_installed_releases(
    envelope: Seq<u8>,
    claim: Option<ReleaseClaim>,
    release: ReleaseView,
    trust: TrustView,
    now: i128,
)
    ensures
        ({
            let aged = TrustView { trusted_at: later(trust.trusted_at, now), ..trust };
            &&& release_of(envelope, claim, aged) == release_of(envelope, claim, trust)
            &&& release_revoked(aged, release) == release_revoked(trust, release)
        }),
{
    let aged = TrustView { trusted_at: later(trust.trusted_at, now), ..trust };
    assert forall|subject: Seq<char>| revokes(aged, subject) == revokes(trust, subject) by {
        assert(aged.claim == trust.claim && aged.tombstones == trust.tombstones);
    }
}

/// Roots and release keys are apart: no release key of accepted trust is a root.
pub proof fn law_release_keys_are_no_roots(document: Seq<u8>, claim: TrustClaim, roots: (Seq<u8>, Seq<u8>), index: int)
    requires
        authenticated(document, Some(claim), roots) is Ok,
        0 <= index < claim.keys.len(),
    ensures
        segment_bytes(claim.keys[index].1) matches Ok(public) && public != roots.0 && public != roots.1,
{
    lemma_no_key_fault(claim.keys, roots, 0, index);
}

proof fn lemma_no_key_fault(
    keys: Seq<(Seq<char>, Seq<char>, KeyState)>,
    roots: (Seq<u8>, Seq<u8>),
    from: int,
    index: int,
)
    requires
        keys_fault(keys, roots, from) is None,
        from <= index < keys.len(),
    ensures
        key_fault(keys, roots, index) is None,
    decreases index - from,
{
    if from < index {
        lemma_no_key_fault(keys, roots, from + 1, index);
    }
}

/// A publisher is shown by one to 64 characters, none of which is a control character or turns
/// the direction of the text; every such text is accepted.
pub proof fn law_publishers(text: Seq<char>)
    ensures
        is_publisher(text) <==> {
            &&& 1 <= text.len() <= 64
            &&& forall|i: int|
                0 <= i < text.len() ==> !(#[trigger] text[i] <= '\u{1f}') && !('\u{7f}' <= text[i] <= '\u{9f}') && text[i]
                    != '\u{61c}' && text[i] != '\u{200e}' && text[i] != '\u{200f}' && !('\u{202a}' <= text[i]
                    <= '\u{202e}') && !('\u{2066}' <= text[i] <= '\u{2069}')
        },
{
    if is_publisher(text) {
        assert forall|i: int| 0 <= i < text.len() implies !(#[trigger] text[i] <= '\u{1f}') && !('\u{7f}' <= text[i]
            <= '\u{9f}') && text[i] != '\u{61c}' && text[i] != '\u{200e}' && text[i] != '\u{200f}' && !('\u{202a}'
            <= text[i] <= '\u{202e}') && !('\u{2066}' <= text[i] <= '\u{2069}') by {
            assert(shown_character(text[i]));
        }
    } else if 1 <= text.len() <= 64 {
        let i = choose|i: int| 0 <= i < text.len() && !shown_character(#[trigger] text[i]);
        assert(!shown_character(text[i]));
    }
}

/// The claims of a release are sound: who it is from, what it is, and which bytes it is of.
pub open spec fn is_sound(claim: ReleaseClaim, version: SemanticVersionView) -> bool {
    &&& is_extension_name(claim.extension)
    &&& version.text == claim.version && version.build.len() == 0
    &&& is_key_id(claim.key)
    &&& 1 <= claim.publisher.len() <= 64
    &&& forall|i: int|
        0 <= i < claim.publisher.len() ==> !(#[trigger] claim.publisher[i] <= '\u{1f}') && !('\u{7f}' <= claim.publisher[i]
            <= '\u{9f}') && claim.publisher[i] != '\u{61c}' && claim.publisher[i] != '\u{200e}' && claim.publisher[i]
            != '\u{200f}' && !('\u{202a}' <= claim.publisher[i] <= '\u{202e}') && !('\u{2066}' <= claim.publisher[i]
            <= '\u{2069}')
    &&& is_digest(claim.manifest.digest) && 1 <= claim.manifest.bytes <= 256 * 1024
    &&& is_digest(claim.component.digest) && 1 <= claim.component.bytes <= 64 * 1024 * 1024
}

/// Sound claims are accepted, and no others.
pub proof fn law_sound_claims_are_accepted(claim: ReleaseClaim)
    ensures
        release_fault(claim) is None <==> (semantic_version(claim.version) matches Some(version) && is_sound(claim, version)),
{
    law_publishers(claim.publisher);
}

/// A segment that encodes these bytes, in the one canonical way.
pub open spec fn encodes(segment: Seq<char>, bytes: Seq<u8>) -> bool {
    &&& segment.len() > 0
    &&& forall|i: int|
        0 <= i < segment.len() ==> ('a' <= #[trigger] segment[i] <= 'z') || ('A' <= segment[i] <= 'Z') || ('0' <= segment[i]
            <= '9') || segment[i] == '-' || segment[i] == '_'
    &&& base64url_decoded(segment) == Some(bytes)
    &&& base64url_encoded(bytes) == segment
}

/// A segment is read exactly where it encodes bytes canonically, and then it is read as these.
pub proof fn law_segments_are_canonical(segment: Seq<char>, bytes: Seq<u8>)
    ensures
        segment_bytes(segment) == Ok::<Seq<u8>, Malformed>(bytes) <==> encodes(segment, bytes),
{
    if exists|i: int| 0 <= i < segment.len() && !base64url_character(#[trigger] segment[i]) {
        let i = choose|i: int| 0 <= i < segment.len() && !base64url_character(#[trigger] segment[i]);
        assert(!base64url_character(segment[i]));
        if encodes(segment, bytes) {
            assert(('a' <= segment[i] <= 'z') || ('A' <= segment[i] <= 'Z') || ('0' <= segment[i] <= '9') || segment[i]
                == '-' || segment[i] == '_');
        }
    } else {
        assert forall|i: int| 0 <= i < segment.len() implies ('a' <= #[trigger] segment[i] <= 'z') || ('A' <= segment[i]
            <= 'Z') || ('0' <= segment[i] <= '9') || segment[i] == '-' || segment[i] == '_' by {
            assert(base64url_character(segment[i]));
        }
    }
}

/// A line that is signed so: its payload, a dot, and a signature of 64 bytes.
pub open spec fn is_signed(line: Seq<u8>, limit: int, signed: SignedView, written: Seq<char>) -> bool {
    &&& 1 <= line.len() <= limit
    &&& forall|i: int| 0 <= i < line.len() ==> #[trigger] line[i] < 0x80
    &&& Seq::new(line.len(), |i: int| line[i] as char) == signed.segment + seq!['.'] + written
    &&& encodes(signed.segment, signed.payload)
    &&& encodes(written, signed.signature)
    &&& signed.signature.len() == 64
}

/// A line is read as signed exactly where it is a payload, a dot and a signature of 64 bytes,
/// both canonical, within the limit.
pub proof fn law_signed_lines(line: Seq<u8>, limit: int, signed: SignedView)
    ensures
        signed_line(line, limit) == Ok::<SignedView, Malformed>(signed) <==> exists|written: Seq<char>| #[trigger]
            is_signed(line, limit, signed, written),
{
    let text = ascii_text(line);
    lemma_cut(text, '.');
    assert(text =~= Seq::new(line.len(), |i: int| line[i] as char));
    if signed_line(line, limit) == Ok::<SignedView, Malformed>(signed) {
        let (segment, written) = cut(text, '.')->0;
        law_segments_are_canonical(segment, signed.payload);
        law_segments_are_canonical(written, signed.signature);
        assert(text =~= segment + seq!['.'] + written);
        assert(is_signed(line, limit, signed, written));
    }
    if exists|written: Seq<char>| #[trigger] is_signed(line, limit, signed, written) {
        let written = choose|written: Seq<char>| #[trigger] is_signed(line, limit, signed, written);
        law_segments_are_canonical(signed.segment, signed.payload);
        law_segments_are_canonical(written, signed.signature);
        let at = signed.segment.len() as int;
        assert(text[at] == '.');
        assert forall|i: int| 0 <= i < at implies text[i] != '.' by {
            assert(text[i] == signed.segment[i]);
        }
        lemma_cut_at(text, '.', at);
        let (before, behind) = cut(text, '.')->0;
        assert(before.len() == at) by {
            if before.len() < at {
                assert(text[before.len() as int] == '.');
            }
            if before.len() > at {
                assert(before[at] == text[at]);
                assert(before.contains('.'));
            }
        }
        assert(before =~= signed.segment) by {
            assert forall|i: int| 0 <= i < at implies before[i] == signed.segment[i] by {
                assert(before[i] == text[i]);
            }
        }
        assert(behind =~= written) by {
            assert forall|i: int| 0 <= i < written.len() implies behind[i] == written[i] by {
                assert(behind[i] == text[at + 1 + i]);
            }
        }
        assert(all_ascii(line));
    }
}

/// The first key of a name.
pub open spec fn is_first_key(keys: Seq<(Seq<char>, Seq<char>, KeyState)>, id: Seq<char>, index: int) -> bool {
    &&& 0 <= index < keys.len()
    &&& keys[index].0 == id
    &&& forall|i: int| 0 <= i < index ==> (#[trigger] keys[i]).0 != id
}

proof fn lemma_key_named(keys: Seq<(Seq<char>, Seq<char>, KeyState)>, id: Seq<char>)
    ensures
        match key_named(keys, id) {
            Some(public) => exists|index: int| #[trigger] is_first_key(keys, id, index) && keys[index].1 == public,
            None => forall|i: int| 0 <= i < keys.len() ==> (#[trigger] keys[i]).0 != id,
        },
        forall|index: int| #[trigger] is_first_key(keys, id, index) ==> key_named(keys, id) == Some(keys[index].1),
    decreases keys.len(),
{
    if keys.len() > 0 {
        if keys[0].0 == id {
            assert(is_first_key(keys, id, 0));
            assert forall|index: int| #[trigger] is_first_key(keys, id, index) implies index == 0 by {
                if index > 0 {
                    assert(keys[0].0 != id);
                }
            }
        } else {
            let rest = keys.drop_first();
            lemma_key_named(rest, id);
            assert forall|i: int| 0 <= i < rest.len() implies #[trigger] rest[i] == keys[i + 1] by {}
            if let Some(public) = key_named(rest, id) {
                let index = choose|index: int| #[trigger] is_first_key(rest, id, index) && rest[index].1 == public;
                assert(is_first_key(keys, id, index + 1)) by {
                    assert forall|i: int| 0 <= i < index + 1 implies (#[trigger] keys[i]).0 != id by {
                        if i > 0 {
                            assert(rest[i - 1].0 != id);
                        }
                    }
                }
            } else {
                assert forall|i: int| 0 <= i < keys.len() implies (#[trigger] keys[i]).0 != id by {
                    if i > 0 {
                        assert(rest[i - 1].0 != id);
                    }
                }
            }
            assert forall|index: int| #[trigger] is_first_key(keys, id, index) implies key_named(keys, id) == Some(
                keys[index].1,
            ) by {
                assert(index > 0);
                assert(is_first_key(rest, id, index - 1)) by {
                    assert forall|i: int| 0 <= i < index - 1 implies (#[trigger] rest[i]).0 != id by {
                        assert(keys[i + 1].0 != id);
                    }
                }
            }
        }
    }
}

/// The envelope is signed for these claims by a listed key that is not revoked: the signature
/// covers the domain of releases, a zero byte and the payload as it stands in the envelope.
pub open spec fn is_authentic(
    envelope: Seq<u8>,
    claim: ReleaseClaim,
    trust: TrustView,
    line: SignedView,
    index: int,
    key: Seq<u8>,
) -> bool {
    &&& signed_line(envelope, 16384) == Ok::<SignedView, Malformed>(line)
    &&& semantic_version(claim.version) matches Some(version) && is_sound(claim, version)
    &&& !trust.tombstones.dom().contains("key:"@ + claim.key)
    &&& forall|i: int| 0 <= i < trust.claim.revoked.len() ==> (#[trigger] trust.claim.revoked[i]).0 != "key:"@ + claim.key
    &&& is_first_key(trust.claim.keys, claim.key, index)
    &&& encodes(trust.claim.keys[index].1, key)
    &&& ed25519_accepts(key, encode_utf8("sloper.release"@) + seq![0u8] + encode_utf8(line.segment), line.signature)
}

/// A release is verified exactly where its envelope is authentic, and then it is what the
/// envelope claims.
pub proof fn law_authentic_releases_verify(envelope: Seq<u8>, claim: ReleaseClaim, trust: TrustView)
    ensures
        match release_of(envelope, Some(claim), trust) {
            Ok(release) => release == (ReleaseView { claim, envelope, digest: digest_of(envelope) }) && exists|
                line: SignedView,
                index: int,
                key: Seq<u8>,
            | #[trigger]
                is_authentic(envelope, claim, trust, line, index, key),
            Err(_) => forall|line: SignedView, index: int, key: Seq<u8>|
                !#[trigger] is_authentic(envelope, claim, trust, line, index, key),
        },
        release_of(envelope, None, trust) is Err,
{
    law_sound_claims_are_accepted(claim);
    lemma_key_named(trust.claim.keys, claim.key);
    if release_of(envelope, Some(claim), trust) is Ok {
        let line = signed_line(envelope, MAX_RELEASE_BYTES as int)->Ok_0;
        let public = key_named(trust.claim.keys, claim.key)->0;
        let index = choose|index: int| #[trigger]
            is_first_key(trust.claim.keys, claim.key, index) && trust.claim.keys[index].1 == public;
        let key = segment_bytes(public)->Ok_0;
        law_segments_are_canonical(public, key);
        assert(is_authentic(envelope, claim, trust, line, index, key));
    } else {
        assert forall|line: SignedView, index: int, key: Seq<u8>| !#[trigger] is_authentic(
            envelope,
            claim,
            trust,
            line,
            index,
            key,
        ) by {
            if is_authentic(envelope, claim, trust, line, index, key) {
                law_segments_are_canonical(trust.claim.keys[index].1, key);
                if revokes(trust, "key:"@ + claim.key) {
                    let i = choose|i: int|
                        0 <= i < trust.claim.revoked.len() && (#[trigger] trust.claim.revoked[i]).0 == "key:"@ + claim.key;
                    assert(trust.claim.revoked[i].0 != "key:"@ + claim.key);
                }
            }
        }
    }
}

/// A subject is revoked where it has a tombstone or stands in the current document.
pub open spec fn is_listed(trust: TrustView, subject: Seq<char>) -> bool {
    trust.tombstones.dom().contains(subject) || exists|i: int|
        0 <= i < trust.claim.revoked.len() && (#[trigger] trust.claim.revoked[i]).0 == subject
}

/// A release stands unless its envelope, its component, its key or its extension is revoked.
pub proof fn law_releases_stand_until_revoked(trust: TrustView, release: ReleaseView)
    ensures
        release_revoked(trust, release) <==> is_listed(trust, release.digest) || is_listed(
            trust,
            release.claim.component.digest,
        ) || is_listed(trust, "key:"@ + release.claim.key) || is_listed(trust, release.claim.extension),
{
}

/// A release is admitted exactly with the bytes that it was signed for: of the length and the
/// hash of its component, with a manifest of the length and the hash that it names, of its own
/// name and version, as long as it stands.
pub proof fn law_admission(release: ReleaseView, component: Seq<u8>, manifest: ParsedIdentity, trust: TrustView)
    ensures
        admission_fault(release, component, manifest, trust) is None <==> {
            &&& component.len() == release.claim.component.bytes
            &&& digest_of(component) == release.claim.component.digest
            &&& manifest_of(component) matches Ok(embedded) && embedded.len() == release.claim.manifest.bytes && digest_of(
                embedded,
            ) == release.claim.manifest.digest
            &&& manifest matches Ok(identity) && identity.0@ == release.claim.extension && identity.1@
                == release.claim.version
            &&& !is_listed(trust, release.digest)
            &&& !is_listed(trust, release.claim.component.digest)
            &&& !is_listed(trust, "key:"@ + release.claim.key)
            &&& !is_listed(trust, release.claim.extension)
        },
{
    law_releases_stand_until_revoked(trust, release);
}

/// The release keys of a trust document are sound: each has a name of its own and is a public
/// key that is neither weak nor a root.
pub open spec fn are_sound_keys(keys: Seq<(Seq<char>, Seq<char>, KeyState)>, roots: (Seq<u8>, Seq<u8>)) -> bool {
    &&& keys.len() <= 64
    &&& forall|i: int| 0 <= i < keys.len() ==> is_key_id((#[trigger] keys[i]).0) && is_sound_key(keys[i].1, roots)
    &&& forall|i: int, j: int| 0 <= i < j < keys.len() ==> (#[trigger] keys[i]).0 != (#[trigger] keys[j]).0
}

/// The text encodes a public key of 32 bytes that is neither weak nor a root.
pub open spec fn is_sound_key(public: Seq<char>, roots: (Seq<u8>, Seq<u8>)) -> bool {
    exists|key: Seq<u8>| #[trigger]
        encodes(public, key) && key.len() == 32 && ed25519_weakness(key) == Some(false) && key != roots.0 && key != roots.1
}

proof fn lemma_keys_sound(keys: Seq<(Seq<char>, Seq<char>, KeyState)>, roots: (Seq<u8>, Seq<u8>), from: int)
    requires
        0 <= from <= keys.len(),
    ensures
        keys_fault(keys, roots, from) is None <==> forall|i: int|
            from <= i < keys.len() ==> is_key_id((#[trigger] keys[i]).0) && is_sound_key(keys[i].1, roots) && forall|j: int|
                0 <= j < i ==> (#[trigger] keys[j]).0 != keys[i].0,
    decreases keys.len() - from,
{
    if from < keys.len() {
        lemma_keys_sound(keys, roots, from + 1);
        let public = keys[from].1;
        if let Ok(key) = segment_bytes(public) {
            law_segments_are_canonical(public, key);
        }
        if is_sound_key(public, roots) {
            let key = choose|key: Seq<u8>| #[trigger]
                encodes(public, key) && key.len() == 32 && ed25519_weakness(key) == Some(false) && key != roots.0 && key
                    != roots.1;
            law_segments_are_canonical(public, key);
        }
    }
}

/// The revocations of a trust document are sound: digests, keys or extensions, in ascending
/// order.
pub open spec fn are_sound_revocations(revoked: Seq<(Seq<char>, RevocationReason)>) -> bool {
    &&& revoked.len() <= 16384
    &&& forall|i: int|
        0 <= i < revoked.len() ==> is_permanent((#[trigger] revoked[i]).0) || is_extension_name(revoked[i].0)
    &&& forall|i: int| 0 < i < revoked.len() ==> text_before(revoked[i - 1].0, (#[trigger] revoked[i]).0)
}

proof fn lemma_revocations_sound(revoked: Seq<(Seq<char>, RevocationReason)>, from: int)
    requires
        0 <= from <= revoked.len(),
    ensures
        revocations_fault(revoked, from) is None <==> forall|i: int|
            from <= i < revoked.len() ==> (is_permanent((#[trigger] revoked[i]).0) || is_extension_name(revoked[i].0)) && (i
                > 0 ==> text_before(revoked[i - 1].0, revoked[i].0)),
    decreases revoked.len() - from,
{
    if from < revoked.len() {
        lemma_revocations_sound(revoked, from + 1);
    }
}

/// A trust document is authentic exactly where one of the two roots has signed it, it is valid
/// for thirty days from its issue, and its keys and revocations are sound; every such document
/// is accepted, and read as what it says.
pub proof fn law_authentic_trust(
    document: Seq<u8>,
    claim: TrustClaim,
    roots: (Seq<u8>, Seq<u8>),
    issued: i128,
    expires: i128,
)
    ensures
        authenticated(document, Some(claim), roots) == Ok::<(i128, i128), Malformed>((issued, expires)) <==> {
            &&& signed_line(document, 1048576) matches Ok(line) && (ed25519_accepts(
                roots.0,
                encode_utf8("sloper.trust"@) + seq![0u8] + encode_utf8(line.segment),
                line.signature,
            ) || ed25519_accepts(
                roots.1,
                encode_utf8("sloper.trust"@) + seq![0u8] + encode_utf8(line.segment),
                line.signature,
            ))
            &&& instant_of(claim.issued) == Ok::<i128, Malformed>(issued)
            &&& instant_of(claim.expires) == Ok::<i128, Malformed>(expires)
            &&& expires - issued == 30 * 24 * 60 * 60 * 1_000_000_000
            &&& claim.generation <= i64::MAX
            &&& are_sound_keys(claim.keys, roots)
            &&& are_sound_revocations(claim.revoked)
        },
        authenticated(document, None, roots) is Err,
{
    lemma_keys_sound(claim.keys, roots, 0);
    lemma_revocations_sound(claim.revoked, 0);
    if keys_fault(claim.keys, roots, 0) is None {
        assert forall|i: int, j: int| 0 <= i < j < claim.keys.len() implies (#[trigger] claim.keys[i]).0
            != (#[trigger] claim.keys[j]).0 by {}
    }
    if are_sound_keys(claim.keys, roots) {
        assert forall|i: int| 0 <= i < claim.keys.len() implies is_key_id((#[trigger] claim.keys[i]).0) && is_sound_key(
            claim.keys[i].1,
            roots,
        ) && forall|j: int| 0 <= j < i ==> (#[trigger] claim.keys[j]).0 != claim.keys[i].0 by {}
    }
}

/// An instant is read from a text that denotes it in UTC and says so by its last letter.
pub proof fn law_instants_are_in_utc(text: Seq<char>, instant: i128)
    ensures
        instant_of(text) == Ok::<i128, Malformed>(instant) <==> rfc3339_instant(text) == Some((instant, true)) && text.len()
            > 0 && text.last() == 'Z',
{
}

/// An authentic document is accepted unless it goes back: it has to be of a later generation
/// than the one before, or the very same document. Then it is trusted, from no earlier than
/// now, its issue and what was trusted before, until it expires.
pub proof fn law_trust_advances(
    document: Seq<u8>,
    claim: TrustClaim,
    roots: (Seq<u8>, Seq<u8>),
    now: i128,
    previous: Option<TrustView>,
    issued: i128,
    expires: i128,
)
    requires
        authenticated(document, Some(claim), roots) == Ok::<(i128, i128), Malformed>((issued, expires)),
    ensures
        match trust_of(document, Some(claim), roots, now, previous) {
            Ok(trust) => {
                &&& previous matches Some(before) ==> before.claim.generation < claim.generation || before.document == document
                    && before.claim.generation == claim.generation
                &&& trust.claim == claim && trust.document == document && trust.expires_at == expires
                &&& now <= trust.trusted_at && issued <= trust.trusted_at
                &&& previous matches Some(before) ==> before.trusted_at <= trust.trusted_at
                &&& trust.trusted_at == now || trust.trusted_at == issued || (previous matches Some(before)
                    && trust.trusted_at == before.trusted_at)
            },
            Err(error) => error == ReleaseError::TrustRollback && (previous matches Some(before) && (claim.generation
                < before.claim.generation || (claim.generation == before.claim.generation && document != before.document))),
        },
{
}

/// Trust is stale from the instant on at which it expires, by the clock or by its floor.
pub proof fn law_trust_expires(trust: TrustView, now: i128)
    ensures
        stale(trust, now) <==> now >= trust.expires_at || trust.trusted_at >= trust.expires_at,
{
}

/// A permanent revocation has a tombstone from then on; none that stands is changed, and none
/// is made up.
pub proof fn law_tombstones_are_revocations(
    tombstones: Map<Seq<char>, RevocationReason>,
    revoked: Seq<(Seq<char>, RevocationReason)>,
    subject: Seq<char>,
)
    ensures
        ({
            let after = buried(tombstones, revoked);
            &&& tombstones.dom().contains(subject) ==> after.dom().contains(subject) && after[subject] == tombstones[subject]
            &&& (exists|i: int| 0 <= i < revoked.len() && (#[trigger] revoked[i]).0 == subject) && is_permanent(subject)
                ==> after.dom().contains(subject)
            &&& after.dom().contains(subject) && !tombstones.dom().contains(subject) ==> is_permanent(subject) && exists|i: int|
                0 <= i < revoked.len() && #[trigger] revoked[i] == (subject, after[subject])
        }),
    decreases revoked.len(),
{
    if revoked.len() > 0 {
        let earlier = revoked.drop_last();
        law_tombstones_are_revocations(tombstones, earlier, subject);
        let before = buried(tombstones, earlier);
        let after = buried(tombstones, revoked);
        let last = revoked.len() - 1;
        if exists|i: int| 0 <= i < revoked.len() && (#[trigger] revoked[i]).0 == subject {
            let i = choose|i: int| 0 <= i < revoked.len() && (#[trigger] revoked[i]).0 == subject;
            if i < last {
                assert(earlier[i].0 == subject);
            }
        }
        if after.dom().contains(subject) && !tombstones.dom().contains(subject) {
            if before.dom().contains(subject) {
                let i = choose|i: int| 0 <= i < earlier.len() && #[trigger] earlier[i] == (subject, before[subject]);
                assert(revoked[i] == (subject, after[subject]));
            } else {
                assert(revoked[last] == (subject, after[subject]));
            }
        }
    }
}

/// The codes of release errors tell their categories apart.
pub proof fn law_release_codes(error: ReleaseError)
    ensures
        error is Manifest ==> error.code_spec() == "extension.undeclared"@,
        error is Admission ==> error.code_spec() == "extension.incompatible"@,
        error is Unsigned ==> error.code_spec() == "extension.unsigned"@,
        error matches ReleaseError::Malformed(malformed) ==> error.code_spec() == if malformed is SignatureInvalid {
            "release.signature-invalid"@
        } else {
            "release.invalid"@
        },
        error is KeyUnknown ==> error.code_spec() == "release.key-unknown"@,
        error is DigestMismatch ==> error.code_spec() == "release.digest-mismatch"@,
        error is Revoked ==> error.code_spec() == "release.revoked"@,
        error is TrustInvalid ==> error.code_spec() == "trust.invalid"@,
        error is TrustRollback ==> error.code_spec() == "trust.rollback"@,
        error is TrustStale ==> error.code_spec() == "trust.stale"@,
{
}

/// A persisted list of tombstones is read back exactly where each is permanent, stands there
/// once and has the word of a reason; then trust holds each of them with that reason, and what
/// it held before.
pub proof fn law_persisted_tombstones(
    tombstones: Map<Seq<char>, RevocationReason>,
    list: Seq<(Seq<char>, Seq<char>)>,
    index: int,
    subject: Seq<char>,
)
    requires
        0 <= index <= list.len(),
    ensures
        entombed(tombstones, list, index) is Ok <==> forall|i: int|
            index <= i < list.len() ==> is_permanent((#[trigger] list[i]).0) && RevocationReason::of_text(list[i].1) is Some
                && forall|j: int| 0 <= j < i ==> (#[trigger] list[j]).0 != list[i].0,
        entombed(tombstones, list, index) matches Ok(after) ==> {
            &&& after.dom().contains(subject) <==> tombstones.dom().contains(subject) || exists|i: int|
                index <= i < list.len() && (#[trigger] list[i]).0 == subject
            &&& forall|i: int|
                index <= i < list.len() && (#[trigger] list[i]).0 == subject ==> RevocationReason::of_text(list[i].1) == Some(
                    after[subject],
                )
            &&& tombstones.dom().contains(subject) && (forall|i: int|
                index <= i < list.len() ==> (#[trigger] list[i]).0 != subject) ==> after[subject] == tombstones[subject]
        },
    decreases list.len() - index,
{
    if index < list.len() {
        if let Some(reason) = RevocationReason::of_text(list[index].1) {
            let next = tombstones.insert(list[index].0, reason);
            law_persisted_tombstones(next, list, index + 1, subject);
            if let Ok(after) = entombed(tombstones, list, index) {
                if list[index].0 == subject {
                    assert forall|i: int| index + 1 <= i < list.len() implies (#[trigger] list[i]).0 != subject by {
                        assert(list[index].0 != list[i].0);
                    }
                }
            }
        }
    }
}

/// A release is revoked for one of four reasons, each with a word of its own.
pub proof fn law_words_for_reasons(text: Seq<char>)
    ensures
        RevocationReason::of_text(text) == Some(RevocationReason::Compromised) <==> text == "compromised"@,
        RevocationReason::of_text(text) == Some(RevocationReason::Malicious) <==> text == "malicious"@,
        RevocationReason::of_text(text) == Some(RevocationReason::Broken) <==> text == "broken"@,
        RevocationReason::of_text(text) == Some(RevocationReason::Mistaken) <==> text == "mistaken"@,
{
    reveal_strlit("compromised");
    reveal_strlit("malicious");
    reveal_strlit("broken");
    reveal_strlit("mistaken");
    assert("compromised"@.len() == 11 && "malicious"@.len() == 9 && "broken"@.len() == 6 && "mistaken"@.len() == 8);
}

/// The control characters are the two ranges of Unicode.
pub proof fn law_control_characters(character: char)
    ensures
        control(character) <==> (character as int) < 0x20 || 0x7f <= character as int <= 0x9f,
{
}

/// The key of a root is what its text encodes, where that is 32 bytes.
pub proof fn law_keys_of_roots(text: Seq<char>)
    ensures
        root_bytes(text) is Ok <==> segment_bytes(text) is Ok && segment_bytes(text)->Ok_0.len() == 32,
        root_bytes(text) is Ok ==> root_bytes(text) == segment_bytes(text),
        segment_bytes(text) is Err ==> root_bytes(text) == segment_bytes(text),
{
}

} // verus!

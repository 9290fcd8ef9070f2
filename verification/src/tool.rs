//! Failures of the authoring tool and how a command reports them.

use vstd::prelude::*;
use vstd::string::*;

use crate::component::{
    extract_manifest, fault_findings, finding_views, manifest_of, ComponentError, Fault, Finding, FindingView,
    MAX_COMPONENT_BYTES,
};
use crate::envelope::Rejection;
use crate::host::{ExecutionError, HostError};
use crate::json::{
    law_put_member_changes_one, lemma_array, lemma_object, lookup, member, members_of, put_member, values_of,
    with_member, Json, JsonValue, Number, NumberView,
};
use crate::release::{pairs_of, Malformed, ReleaseError};
use crate::text::{joined, utf8_text};
use crate::world::{component_fault, manifest_parses, validate_extension, verdict_of, HostWorld};

verus! {

/// What static checks say of a component.
#[derive(Debug)]
pub struct Validation {
    /// The component satisfies the extension rules.
    pub valid: bool,
    /// Why a component is rejected.
    pub findings: Vec<Finding>,
    /// The exact text of the embedded manifest of a valid component.
    pub manifest: Option<String>,
}

/// Why a component could not be checked at all.
#[derive(Debug)]
pub enum ValidationError {
    /// The file could not be read.
    Read,
    /// The manifest of a valid component is not UTF-8.
    Encoding,
    /// The manifest of a valid component could not be extracted.
    Manifest(ComponentError),
}

/// The findings on a component over the size limit.
pub open spec fn oversize_finding() -> FindingView {
    FindingView { code: "MANIFEST_TOO_LARGE"@, location: ""@, message: "Component exceeds 64 MiB."@ }
}

/// Reports on a component. `verdict` is what the document and world checks say of
/// bytes within the size limit; the manifest of a valid component is kept as it
/// is, whitespace and all.
pub fn validate_bytes(bytes: &[u8], verdict: Result<(), ComponentError>) -> (report: Result<Validation, ValidationError>)
    ensures
        if bytes@.len() > MAX_COMPONENT_BYTES {
            report matches Ok(report) && !report.valid && finding_views(report.findings@) == seq![oversize_finding()]
                && report.manifest is None
        } else {
            match verdict {
                Err(error) => report matches Ok(report) && !report.valid && finding_views(report.findings@)
                    == error.findings_spec() && report.manifest is None,
                Ok(_) => match manifest_of(bytes@) {
                    Err(rejection) => report == Err::<Validation, _>(
                        ValidationError::Manifest(ComponentError::Rejected(rejection)),
                    ),
                    Ok(manifest) => if vstd::utf8::valid_utf8(manifest) {
                        report matches Ok(report) && report.valid && report.findings@.len() == 0 && (
                        report.manifest matches Some(text) && vstd::utf8::encode_utf8(text@) == manifest)
                    } else {
                        report == Err::<Validation, _>(ValidationError::Encoding)
                    },
                },
            }
        },
{
    if bytes.len() > MAX_COMPONENT_BYTES {
        let error = ComponentError::Rejected(Rejection::ComponentTooLarge);
        let findings = error.findings();
        assert(error.findings_spec() =~= seq![oversize_finding()]);
        return Ok(Validation { valid: false, findings, manifest: None });
    }
    match verdict {
        Err(error) => Ok(Validation { valid: false, findings: error.findings(), manifest: None }),
        Ok(_) => match extract_manifest(bytes) {
            Err(error) => Err(ValidationError::Manifest(error)),
            Ok(manifest) => match utf8_text(manifest) {
                None => Err(ValidationError::Encoding),
                Some(text) => Ok(
                    Validation { valid: true, findings: Vec::new(), manifest: Some(text.to_owned()) },
                ),
            },
        },
    }
}

/// The report on bytes whose manifest parses to `verdict`.
pub open spec fn is_report(
    bytes: Seq<u8>,
    verdict: Result<Json, Vec<Finding>>,
    packages: Seq<(Seq<char>, Seq<char>)>,
    source: Seq<char>,
    report: Result<Validation, ValidationError>,
) -> bool {
    let fault = if bytes.len() > MAX_COMPONENT_BYTES {
        Some(Fault::Rejected(Rejection::ComponentTooLarge))
    } else {
        component_fault(bytes, verdict_of(verdict), packages, source)
    };
    match fault {
        Some(fault) => report matches Ok(report) && !report.valid && finding_views(report.findings@) == fault_findings(
            fault,
        ) && report.manifest is None,
        None => if vstd::utf8::valid_utf8(manifest_of(bytes)->Ok_0) {
            report matches Ok(report) && report.valid && report.findings@.len() == 0 && (report.manifest matches Some(
                text,
            ) && vstd::utf8::encode_utf8(text@) == manifest_of(bytes)->Ok_0)
        } else {
            report == Err::<Validation, _>(ValidationError::Encoding)
        },
    }
}

/// Checks a component and reports on it. `parse` is the manifest parser, which is not asked
/// of bytes over the size limit.
pub fn report_extension<P: Fn(&[u8]) -> Result<Json, Vec<Finding>>>(bytes: &[u8], parse: &P, host: &HostWorld) -> (report:
    Result<Validation, ValidationError>)
    requires
        forall|bytes: &[u8]| call_requires(*parse, (bytes,)),
    ensures
        exists|verdict: Result<Json, Vec<Finding>>| #[trigger]
            manifest_parses(bytes@, *parse, verdict) && is_report(
                bytes@,
                verdict,
                pairs_of(host.packages@),
                host.source@,
                report,
            ),
{
    if bytes.len() > MAX_COMPONENT_BYTES {
        assert(manifest_of(bytes@) is Err);
        assert(manifest_parses(bytes@, *parse, Ok(Json::Null)));
        let report = validate_bytes(bytes, Ok(()));
        assert(fault_findings(Fault::Rejected(Rejection::ComponentTooLarge)) =~= seq![oversize_finding()]);
        return report;
    }
    match validate_extension(bytes, parse, host) {
        Ok(_) => validate_bytes(bytes, Ok(())),
        Err(error) => validate_bytes(bytes, Err(error)),
    }
}

/// What a publication service declares of a refused request.
#[derive(Debug)]
pub struct Problem {
    pub code: String,
    /// The declared errors, an array.
    pub errors: Option<Vec<Json>>,
}

/// Why a publication request failed. Bodies and headers are not kept.
pub enum PublicationError {
    /// A header could not be formed.
    Header,
    /// The client failed before or after a response.
    Client {
        /// The request itself could not be formed.
        request: bool,
        /// The status of the response.
        status: Option<u16>,
        /// What the service declares, where its body says so.
        problem: Option<Problem>,
    },
}

/// The exit code for a status; none at all counts as a failed connection.
pub open spec fn status_exit(status: Option<u16>) -> u8 {
    match status {
        None => 9,
        Some(status) => if status == 401 {
            6
        } else if status == 403 {
            8
        } else if status == 404 {
            5
        } else if status == 409 || status == 412 || status == 428 {
            4
        } else if status == 400 || status == 413 || status == 415 || status == 422 {
            3
        } else if status == 429 || status == 502 || status == 503 || status == 504 {
            9
        } else {
            10
        },
    }
}

/// A JSON object of one member.
pub open spec fn one_member(name: Seq<char>, value: JsonValue) -> JsonValue {
    JsonValue::Object(seq![(name, value)])
}

/// The JSON number of an unsigned integer.
pub open spec fn unsigned(value: u64) -> JsonValue {
    JsonValue::Number(NumberView::Unsigned(value))
}

impl PublicationError {
    /// The exit code of this failure.
    pub open spec fn exit_spec(&self) -> u8 {
        match self {
            PublicationError::Header => 9,
            PublicationError::Client { request, status, problem } => if *request {
                2
            } else {
                status_exit(*status)
            },
        }
    }

    /// Returns the exit code of this failure.
    pub fn exit_code(&self) -> (exit: u8)
        ensures
            exit == self.exit_spec(),
    {
        match self {
            PublicationError::Header => 9,
            PublicationError::Client { request, status, .. } => {
                if *request {
                    return 2;
                }
                match *status {
                    None => 9,
                    Some(401) => 6,
                    Some(403) => 8,
                    Some(404) => 5,
                    Some(409) | Some(412) | Some(428) => 4,
                    Some(400) | Some(413) | Some(415) | Some(422) => 3,
                    Some(429) | Some(502) | Some(503) | Some(504) => 9,
                    Some(_) => 10,
                }
            },
        }
    }

    /// What a command shows of this failure: the status, and what the service
    /// declares.
    pub open spec fn details_spec(&self) -> JsonValue {
        match self {
            PublicationError::Header => JsonValue::Object(Seq::empty()),
            PublicationError::Client { request, status, problem } => match status {
                None => JsonValue::Object(Seq::empty()),
                Some(status) => {
                    let shown = seq![("status"@, unsigned(*status as u64))];
                    match problem {
                        None => JsonValue::Object(shown),
                        Some(problem) => {
                            let coded = with_member(shown, "code"@, JsonValue::Text(problem.code@));
                            match problem.errors {
                                Some(errors) => if errors@.len() > 0 {
                                    JsonValue::Object(
                                        with_member(coded, "errors"@, JsonValue::Array(values_of(errors@))),
                                    )
                                } else {
                                    JsonValue::Object(coded)
                                },
                                None => JsonValue::Object(coded),
                            }
                        },
                    }
                },
            },
        }
    }

    /// Returns what a command shows of this failure.
    pub fn details(&self) -> (details: Json)
        ensures
            details@ == self.details_spec(),
    {
        let mut members: Vec<(String, Json)> = Vec::new();
        if let PublicationError::Client { status, problem, .. } = self {
            if let Some(status) = status {
                members.push(("status".to_owned(), Json::Number(Number::Unsigned(*status as u64))));
                assert(members_of(members@) =~= seq![("status"@, unsigned(*status as u64))]);
                if let Some(problem) = problem {
                    put_member(&mut members, "code".to_owned(), Json::Text(problem.code.clone()));
                    if let Some(errors) = &problem.errors {
                        if errors.len() > 0 {
                            let copied = copy_values(errors);
                            proof {
                                lemma_array(copied);
                            }
                            put_member(&mut members, "errors".to_owned(), Json::Array(copied));
                        }
                    }
                }
            }
        }
        proof {
            lemma_object(members);
            assert(members@.len() == 0 ==> members_of(members@) =~= Seq::empty());
        }
        Json::Object(members)
    }
}

/// Returns equal values.
pub fn copy_values(values: &Vec<Json>) -> (copied: Vec<Json>)
    ensures
        values_of(copied@) == values_of(values@),
{
    let mut copied: Vec<Json> = Vec::new();
    let mut index: usize = 0;
    while index < values.len()
        invariant
            index <= values.len(),
            copied@.len() == index,
            forall|i: int| 0 <= i < index ==> (#[trigger] copied@[i])@ == values@[i]@,
        decreases values.len() - index,
    {
        copied.push(values[index].copy());
        index += 1;
    }
    assert(values_of(copied@) =~= values_of(values@));
    copied
}

/// Why a command failed. Nothing of it shows inputs, paths or credentials but the
/// messages themselves.
pub enum Error {
    /// The arguments are invalid.
    Usage(String),
    /// An input violates a rule of the tool.
    Invalid(String),
    /// An input does not satisfy a declared schema.
    Validation(Vec<Finding>),
    /// A component was rejected with these findings; its manifest is shown beside them.
    ComponentCheck(Vec<Finding>, Json),
    /// A component is malformed.
    Component(ComponentError),
    /// A manifest was refused, with this message and these findings.
    Manifest(String, Vec<Finding>),
    /// A source filename was refused, with this message.
    SourceFilename(String),
    /// An icon could not be decoded.
    Png,
    /// Admission or execution failed.
    Execution(ExecutionError),
    /// A local capability failed.
    Host(HostError),
    /// A release could not be authenticated.
    Release(ReleaseError),
    /// A request could not be formed or sent.
    Http,
    /// The publication service refused.
    Publication(PublicationError),
    /// A component could not be checked.
    ValidationInput(ValidationError),
    /// A peer or subprocess gave an invalid answer.
    InvalidResponse(String),
    /// JSON is malformed.
    Json,
    /// File work failed, with whether a file was missing.
    Io(bool),
}

impl HostError {
    /// The words for this error.
    pub open spec fn message_spec(&self) -> Seq<char> {
        match self {
            HostError::Unauthorized => "connection requires repair"@,
            HostError::Invalid(message) => "invalid extension input: "@ + message@,
            HostError::TooLarge => "extension input exceeds its limit"@,
            HostError::Stopped => "operation stopped"@,
            HostError::SourceUnreadable => "source could not be read"@,
            HostError::SourceRead(_) => "source could not be read"@,
            HostError::SourceWrite(_) => "source could not be written"@,
            HostError::Unavailable => "extension host is unavailable"@,
        }
    }

    /// Returns the words for this error.
    pub fn message(&self) -> (message: String)
        ensures
            message@ == self.message_spec(),
    {
        match self {
            HostError::Unauthorized => "connection requires repair".to_owned(),
            HostError::Invalid(message) => joined("invalid extension input: ", message),
            HostError::TooLarge => "extension input exceeds its limit".to_owned(),
            HostError::Stopped => "operation stopped".to_owned(),
            HostError::SourceUnreadable => "source could not be read".to_owned(),
            HostError::SourceRead(_) => "source could not be read".to_owned(),
            HostError::SourceWrite(_) => "source could not be written".to_owned(),
            HostError::Unavailable => "extension host is unavailable".to_owned(),
        }
    }
}

impl ExecutionError {
    /// The words for this error.
    pub open spec fn message_spec(&self) -> Seq<char> {
        match self {
            ExecutionError::Component(_) => "extension component is invalid"@,
            ExecutionError::Runtime(_) => "extension execution failed"@,
            ExecutionError::Trapped(_) => "extension trapped"@,
            ExecutionError::Invalid(message) => "invalid extension input: "@ + message@,
            ExecutionError::Deadline => "extension deadline exceeded"@,
            ExecutionError::Stopped => "operation stopped"@,
            ExecutionError::SourceFailed => "source writer failed"@,
            ExecutionError::SourceUnreadable => "source could not be read"@,
            ExecutionError::SourceRead(_) => "source could not be read"@,
            ExecutionError::ItemInvalid => "extension item was invalid"@,
            ExecutionError::LimitExceeded => "extension limit exceeded"@,
            ExecutionError::Host(_) => "extension host failed"@,
        }
    }

    /// Returns the words for this error.
    pub fn message(&self) -> (message: String)
        ensures
            message@ == self.message_spec(),
    {
        match self {
            ExecutionError::Component(_) => "extension component is invalid".to_owned(),
            ExecutionError::Runtime(_) => "extension execution failed".to_owned(),
            ExecutionError::Trapped(_) => "extension trapped".to_owned(),
            ExecutionError::Invalid(message) => joined("invalid extension input: ", message),
            ExecutionError::Deadline => "extension deadline exceeded".to_owned(),
            ExecutionError::Stopped => "operation stopped".to_owned(),
            ExecutionError::SourceFailed => "source writer failed".to_owned(),
            ExecutionError::SourceUnreadable => "source could not be read".to_owned(),
            ExecutionError::SourceRead(_) => "source could not be read".to_owned(),
            ExecutionError::ItemInvalid => "extension item was invalid".to_owned(),
            ExecutionError::LimitExceeded => "extension limit exceeded".to_owned(),
            ExecutionError::Host(_) => "extension host failed".to_owned(),
        }
    }
}

impl ReleaseError {
    /// The words for this error.
    pub open spec fn message_spec(&self) -> Seq<char> {
        match self {
            ReleaseError::Component(_) => "extension.undeclared"@,
            ReleaseError::Manifest(_) => "extension.undeclared"@,
            ReleaseError::Admission(_) => "extension.incompatible"@,
            ReleaseError::Unsigned => "extension.unsigned"@,
            ReleaseError::Malformed(Malformed::Invalid(reason)) => "release.invalid: "@ + reason.text_spec(),
            ReleaseError::Malformed(Malformed::Json) => "release.invalid: malformed payload"@,
            ReleaseError::Malformed(Malformed::Base64) => "release.invalid: malformed base64url"@,
            ReleaseError::Malformed(Malformed::SignatureInvalid) => "release.signature-invalid"@,
            ReleaseError::KeyUnknown => "release.key-unknown"@,
            ReleaseError::DigestMismatch => "release.digest-mismatch"@,
            ReleaseError::Revoked => "release.revoked"@,
            ReleaseError::TrustInvalid(_) => "trust.invalid"@,
            ReleaseError::TrustRollback => "trust.rollback"@,
            ReleaseError::TrustStale => "trust.stale"@,
        }
    }

    /// Returns the words for this error.
    pub fn message(&self) -> (message: String)
        ensures
            message@ == self.message_spec(),
    {
        match self {
            ReleaseError::Component(_) => "extension.undeclared".to_owned(),
            ReleaseError::Manifest(_) => "extension.undeclared".to_owned(),
            ReleaseError::Admission(_) => "extension.incompatible".to_owned(),
            ReleaseError::Unsigned => "extension.unsigned".to_owned(),
            ReleaseError::Malformed(Malformed::Invalid(reason)) => joined("release.invalid: ", reason.text()),
            ReleaseError::Malformed(Malformed::Json) => "release.invalid: malformed payload".to_owned(),
            ReleaseError::Malformed(Malformed::Base64) => "release.invalid: malformed base64url".to_owned(),
            ReleaseError::Malformed(Malformed::SignatureInvalid) => "release.signature-invalid".to_owned(),
            ReleaseError::KeyUnknown => "release.key-unknown".to_owned(),
            ReleaseError::DigestMismatch => "release.digest-mismatch".to_owned(),
            ReleaseError::Revoked => "release.revoked".to_owned(),
            ReleaseError::TrustInvalid(_) => "trust.invalid".to_owned(),
            ReleaseError::TrustRollback => "trust.rollback".to_owned(),
            ReleaseError::TrustStale => "trust.stale".to_owned(),
        }
    }
}

impl ValidationError {
    /// The words for this error.
    pub open spec fn message_spec(&self) -> Seq<char> {
        match self {
            ValidationError::Read => "component input could not be read"@,
            ValidationError::Encoding => "validated manifest encoding is invalid"@,
            ValidationError::Manifest(_) => "validated component lost its manifest"@,
        }
    }

    /// Returns the words for this error.
    pub fn message(&self) -> (message: String)
        ensures
            message@ == self.message_spec(),
    {
        match self {
            ValidationError::Read => "component input could not be read".to_owned(),
            ValidationError::Encoding => "validated manifest encoding is invalid".to_owned(),
            ValidationError::Manifest(_) => "validated component lost its manifest".to_owned(),
        }
    }
}

/// A finding as JSON.
pub open spec fn finding_value(finding: FindingView) -> JsonValue {
    JsonValue::Object(
        seq![
            ("code"@, JsonValue::Text(finding.code)),
            ("location"@, JsonValue::Text(finding.location)),
            ("message"@, JsonValue::Text(finding.message)),
        ],
    )
}

/// Findings as JSON.
pub open spec fn findings_value(findings: Seq<FindingView>) -> JsonValue {
    JsonValue::Array(findings.map_values(|finding: FindingView| finding_value(finding)))
}

/// Writes findings as JSON.
pub fn findings_json(findings: &Vec<Finding>) -> (json: Json)
    ensures
        json@ == findings_value(finding_views(findings@)),
{
    let mut items: Vec<Json> = Vec::new();
    let mut index: usize = 0;
    while index < findings.len()
        invariant
            index <= findings.len(),
            items@.len() == index,
            forall|i: int| 0 <= i < index ==> (#[trigger] items@[i])@ == finding_value(findings@[i]@),
        decreases findings.len() - index,
    {
        let finding = &findings[index];
        let mut members: Vec<(String, Json)> = Vec::new();
        members.push(("code".to_owned(), Json::Text(finding.code.clone())));
        members.push(("location".to_owned(), Json::Text(finding.location.clone())));
        members.push(("message".to_owned(), Json::Text(finding.message.clone())));
        proof {
            lemma_object(members);
            assert(members_of(members@) =~= finding_value(finding@)->Object_0);
        }
        items.push(Json::Object(members));
        index += 1;
    }
    proof {
        lemma_array(items);
        assert(values_of(items@) =~= findings_value(finding_views(findings@))->Array_0);
    }
    Json::Array(items)
}

/// The report on a component as JSON.
pub open spec fn validation_value(validation: Validation) -> JsonValue {
    JsonValue::Object(
        seq![
            ("valid"@, JsonValue::Bool(validation.valid)),
            ("findings"@, findings_value(finding_views(validation.findings@))),
            (
                "manifest"@,
                match validation.manifest {
                    Some(manifest) => JsonValue::Text(manifest@),
                    None => JsonValue::Null,
                },
            ),
        ],
    )
}

/// Writes the report on a component as JSON.
pub fn validation_json(validation: &Validation) -> (json: Json)
    ensures
        json@ == validation_value(*validation),
{
    let mut members: Vec<(String, Json)> = Vec::new();
    members.push(("valid".to_owned(), Json::Bool(validation.valid)));
    members.push(("findings".to_owned(), findings_json(&validation.findings)));
    members.push(
        (
            "manifest".to_owned(),
            match &validation.manifest {
                Some(manifest) => Json::Text(manifest.clone()),
                None => Json::Null,
            },
        ),
    );
    proof {
        lemma_object(members);
        assert(members_of(members@) =~= validation_value(*validation)->Object_0);
    }
    Json::Object(members)
}

/// The report on a rejected component as JSON, with the manifest it shows.
pub open spec fn check_value(findings: Seq<FindingView>, manifest: JsonValue) -> JsonValue {
    JsonValue::Object(
        seq![
            ("valid"@, JsonValue::Bool(false)),
            ("findings"@, findings_value(findings)),
            ("manifest"@, manifest),
        ],
    )
}

fn check_json(findings: &Vec<Finding>, manifest: &Json) -> (json: Json)
    ensures
        json@ == check_value(finding_views(findings@), manifest@),
{
    let mut members: Vec<(String, Json)> = Vec::new();
    members.push(("valid".to_owned(), Json::Bool(false)));
    members.push(("findings".to_owned(), findings_json(findings)));
    members.push(("manifest".to_owned(), manifest.copy()));
    proof {
        lemma_object(members);
        assert(members_of(members@) =~= check_value(finding_views(findings@), manifest@)->Object_0);
    }
    Json::Object(members)
}

impl Error {
    /// The shell category: usage 2, validation 3, conflict 4, missing file 5,
    /// unauthenticated 6, refused by policy 8, retryable 9, other failures 10.
    pub open spec fn exit_spec(&self) -> u8 {
        match self {
            Error::Usage(_) => 2,
            Error::Json => 2,
            Error::Invalid(_) => 3,
            Error::Validation(_) => 3,
            Error::ComponentCheck(_, _) => 3,
            Error::Component(_) => 3,
            Error::Manifest(_, _) => 3,
            Error::SourceFilename(_) => 3,
            Error::Png => 3,
            Error::Execution(_) => 3,
            Error::Host(_) => 3,
            Error::Release(_) => 3,
            Error::Io(missing) => if *missing {
                5
            } else {
                10
            },
            Error::Http => 9,
            Error::Publication(error) => error.exit_spec(),
            Error::ValidationInput(_) => 10,
            Error::InvalidResponse(_) => 10,
        }
    }

    /// Returns the shell category.
    pub fn exit_code(&self) -> (exit: u8)
        ensures
            exit == self.exit_spec(),
    {
        match self {
            Error::Usage(_) => 2,
            Error::Json => 2,
            Error::Invalid(_) => 3,
            Error::Validation(_) => 3,
            Error::ComponentCheck(_, _) => 3,
            Error::Component(_) => 3,
            Error::Manifest(_, _) => 3,
            Error::SourceFilename(_) => 3,
            Error::Png => 3,
            Error::Execution(_) => 3,
            Error::Host(_) => 3,
            Error::Release(_) => 3,
            Error::Io(missing) => {
                if *missing {
                    5
                } else {
                    10
                }
            },
            Error::Http => 9,
            Error::Publication(error) => error.exit_code(),
            Error::ValidationInput(_) => 10,
            Error::InvalidResponse(_) => 10,
        }
    }

    /// The words for this error.
    pub open spec fn message_spec(&self) -> Seq<char> {
        match self {
            Error::Usage(message) => message@,
            Error::Invalid(message) => message@,
            Error::Validation(_) => "input failed validation"@,
            Error::ComponentCheck(_, _) => "component validation failed"@,
            Error::Component(_) => "extension component validation failed"@,
            Error::Manifest(message, _) => message@,
            Error::SourceFilename(message) => message@,
            Error::Png => "extension icon is invalid"@,
            Error::Execution(error) => error.message_spec(),
            Error::Host(error) => error.message_spec(),
            Error::Release(error) => error.message_spec(),
            Error::Http => "The publication service could not be reached"@,
            Error::Publication(_) => "The publication request failed"@,
            Error::ValidationInput(error) => error.message_spec(),
            Error::InvalidResponse(message) => message@,
            Error::Json => "JSON input is malformed"@,
            Error::Io(_) => "the command could not complete its file operation"@,
        }
    }

    /// Returns the words for this error.
    pub fn message(&self) -> (message: String)
        ensures
            message@ == self.message_spec(),
    {
        match self {
            Error::Usage(message) => message.clone(),
            Error::Invalid(message) => message.clone(),
            Error::Validation(_) => "input failed validation".to_owned(),
            Error::ComponentCheck(_, _) => "component validation failed".to_owned(),
            Error::Component(_) => "extension component validation failed".to_owned(),
            Error::Manifest(message, _) => message.clone(),
            Error::SourceFilename(message) => message.clone(),
            Error::Png => "extension icon is invalid".to_owned(),
            Error::Execution(error) => error.message(),
            Error::Host(error) => error.message(),
            Error::Release(error) => error.message(),
            Error::Http => "The publication service could not be reached".to_owned(),
            Error::Publication(_) => "The publication request failed".to_owned(),
            Error::ValidationInput(error) => error.message(),
            Error::InvalidResponse(message) => message.clone(),
            Error::Json => "JSON input is malformed".to_owned(),
            Error::Io(_) => "the command could not complete its file operation".to_owned(),
        }
    }

    /// The name that a diagnostic shows of this error: nothing of its contents.
    pub open spec fn name_spec(&self) -> Seq<char> {
        match self {
            Error::Usage(_) => "Usage"@,
            Error::Invalid(_) => "Invalid"@,
            Error::Validation(_) => "Validation"@,
            Error::ComponentCheck(_, _) => "ComponentCheck"@,
            Error::Component(_) => "Component"@,
            Error::Manifest(_, _) => "Manifest"@,
            Error::SourceFilename(_) => "SourceFilename"@,
            Error::Png => "Png"@,
            Error::Execution(_) => "Execution"@,
            Error::Host(_) => "Host"@,
            Error::Release(_) => "Release"@,
            Error::Http => "Http"@,
            Error::Publication(_) => "Publication"@,
            Error::ValidationInput(_) => "ValidationInput"@,
            Error::InvalidResponse(_) => "InvalidResponse"@,
            Error::Json => "Json"@,
            Error::Io(_) => "Io"@,
        }
    }

    /// Returns the name that a diagnostic shows of this error.
    pub fn debug_text(&self) -> (name: &'static str)
        ensures
            name@ == self.name_spec(),
    {
        match self {
            Error::Usage(_) => "Usage",
            Error::Invalid(_) => "Invalid",
            Error::Validation(_) => "Validation",
            Error::ComponentCheck(_, _) => "ComponentCheck",
            Error::Component(_) => "Component",
            Error::Manifest(_, _) => "Manifest",
            Error::SourceFilename(_) => "SourceFilename",
            Error::Png => "Png",
            Error::Execution(_) => "Execution",
            Error::Host(_) => "Host",
            Error::Release(_) => "Release",
            Error::Http => "Http",
            Error::Publication(_) => "Publication",
            Error::ValidationInput(_) => "ValidationInput",
            Error::InvalidResponse(_) => "InvalidResponse",
            Error::Json => "Json",
            Error::Io(_) => "Io",
        }
    }

    /// The stable code of this error.
    pub open spec fn code_spec(&self) -> Seq<char> {
        let exit = self.exit_spec();
        if exit == 10 && self is InvalidResponse {
            "INVALID_RESPONSE"@
        } else if exit == 2 {
            "USAGE"@
        } else if exit == 3 {
            "VALIDATION_FAILED"@
        } else if exit == 4 {
            "CONFLICT"@
        } else if exit == 5 {
            "NOT_FOUND"@
        } else if exit == 6 {
            "AUTHENTICATION_FAILED"@
        } else if exit == 8 {
            "POLICY_BLOCKED"@
        } else if exit == 9 {
            "RESOURCE_EXHAUSTED"@
        } else {
            "INTERNAL"@
        }
    }

    /// Returns the stable code of this error.
    pub fn code(&self) -> (code: &'static str)
        ensures
            code@ == self.code_spec(),
    {
        if let Error::InvalidResponse(_) = self {
            return "INVALID_RESPONSE";
        }
        match self.exit_code() {
            2 => "USAGE",
            3 => "VALIDATION_FAILED",
            4 => "CONFLICT",
            5 => "NOT_FOUND",
            6 => "AUTHENTICATION_FAILED",
            8 => "POLICY_BLOCKED",
            9 => "RESOURCE_EXHAUSTED",
            _ => "INTERNAL",
        }
    }

    /// What a command may show of this error besides its message.
    pub open spec fn details_spec(&self) -> JsonValue {
        match self {
            Error::Component(error) => one_member("findings"@, findings_value(error.findings_spec())),
            Error::Manifest(_, findings) => one_member("findings"@, findings_value(finding_views(findings@))),
            Error::Validation(findings) => one_member("findings"@, findings_value(finding_views(findings@))),
            Error::Publication(error) => error.details_spec(),
            Error::ComponentCheck(findings, manifest) => JsonValue::Object(
                seq![
                    ("findings"@, findings_value(finding_views(findings@))),
                    ("check"@, check_value(finding_views(findings@), manifest@)),
                ],
            ),
            _ => JsonValue::Object(Seq::empty()),
        }
    }

    fn details(&self) -> (details: Json)
        ensures
            details@ == self.details_spec(),
    {
        let mut members: Vec<(String, Json)> = Vec::new();
        match self {
            Error::Component(error) => {
                let findings = error.findings();
                members.push(("findings".to_owned(), findings_json(&findings)));
            },
            Error::Manifest(_, findings) => {
                members.push(("findings".to_owned(), findings_json(findings)));
            },
            Error::Validation(findings) => {
                members.push(("findings".to_owned(), findings_json(findings)));
            },
            Error::Publication(error) => return error.details(),
            Error::ComponentCheck(findings, manifest) => {
                members.push(("findings".to_owned(), findings_json(findings)));
                members.push(("check".to_owned(), check_json(findings, manifest)));
            },
            _ => {},
        }
        proof {
            lemma_object(members);
            assert(members_of(members@) =~= self.details_spec()->Object_0);
        }
        Json::Object(members)
    }

    /// What a failed command writes out.
    pub open spec fn report_spec(&self) -> JsonValue {
        JsonValue::Object(
            seq![
                ("code"@, JsonValue::Text(self.code_spec())),
                ("exit"@, unsigned(self.exit_spec() as u64)),
                ("message"@, JsonValue::Text(self.message_spec())),
                ("retryable"@, JsonValue::Bool(self.exit_spec() == 9)),
                ("details"@, self.details_spec()),
            ],
        )
    }

    /// Returns what a failed command writes out.
    pub fn command_error(&self) -> (report: Json)
        ensures
            report@ == self.report_spec(),
    {
        let exit = self.exit_code();
        let mut members: Vec<(String, Json)> = Vec::new();
        members.push(("code".to_owned(), Json::Text(self.code().to_owned())));
        members.push(("exit".to_owned(), Json::Number(Number::Unsigned(exit as u64))));
        members.push(("message".to_owned(), Json::Text(self.message())));
        members.push(("retryable".to_owned(), Json::Bool(exit == 9)));
        members.push(("details".to_owned(), self.details()));
        proof {
            lemma_object(members);
            assert(members_of(members@) =~= self.report_spec()->Object_0);
        }
        Json::Object(members)
    }
}

/// An answer of the service ends a command by what it means: who asked, what was allowed,
/// what was missing, what stood in the way, what was wrong, and what may be tried again.
pub proof fn law_statuses_end_commands(status: u16)
    ensures
        status_exit(None) == 9,
        status_exit(Some(status)) == 6 <==> status == 401,
        status_exit(Some(status)) == 8 <==> status == 403,
        status_exit(Some(status)) == 5 <==> status == 404,
        status_exit(Some(status)) == 4 <==> status == 409 || status == 412 || status == 428,
        status_exit(Some(status)) == 3 <==> status == 400 || status == 413 || status == 415 || status == 422,
        status_exit(Some(status)) == 9 <==> status == 429 || 502 <= status <= 504,
        status_exit(Some(status)) != 0,
        status_exit(Some(status)) <= 10,
{
}

/// A failure ends a command by its kind, and never as success.
pub proof fn law_failures_end_commands(error: Error)
    ensures
        ({
            let exit = error.exit_spec();
            &&& exit != 0
            &&& exit == 2 <==> error is Usage || error is Json || (error is Publication && error->Publication_0 is Client
                && error->Publication_0->request)
            &&& error is Invalid || error is Validation || error is ComponentCheck || error is Component || error is Manifest
                || error is SourceFilename || error is Png || error is Execution || error is Host || error is Release ==> exit
                == 3
            &&& exit == 5 <==> error == Error::Io(true) || (error is Publication && error->Publication_0 is Client
                && !error->Publication_0->request && error->Publication_0->status == Some(404u16))
            &&& error is Http ==> exit == 9
            &&& error == Error::Io(false) || error is ValidationInput || error is InvalidResponse ==> exit == 10
            &&& error is Publication && error->Publication_0 is Header ==> exit == 9
            &&& error is Publication && error->Publication_0 is Client && !error->Publication_0->request ==> exit
                == status_exit(error->Publication_0->status)
        }),
{
}

/// A failure is reported under the code of its category, and one that may be tried again is
/// reported as such.
pub proof fn law_failures_are_reported(error: Error)
    ensures
        ({
            let report = error.report_spec();
            let exit = error.exit_spec();
            let code = error.code_spec();
            &&& member(report, "code"@) == Some(JsonValue::Text(code))
            &&& member(report, "exit"@) == Some(JsonValue::Number(NumberView::Unsigned(exit as u64)))
            &&& member(report, "message"@) == Some(JsonValue::Text(error.message_spec()))
            &&& member(report, "retryable"@) == Some(JsonValue::Bool(exit == 9))
            &&& member(report, "details"@) == Some(error.details_spec())
            &&& error is InvalidResponse ==> code == "INVALID_RESPONSE"@
            &&& exit == 2 ==> code == "USAGE"@
            &&& exit == 3 ==> code == "VALIDATION_FAILED"@
            &&& exit == 4 ==> code == "CONFLICT"@
            &&& exit == 5 ==> code == "NOT_FOUND"@
            &&& exit == 6 ==> code == "AUTHENTICATION_FAILED"@
            &&& exit == 8 ==> code == "POLICY_BLOCKED"@
            &&& exit == 9 ==> code == "RESOURCE_EXHAUSTED"@
            &&& exit == 10 && !(error is InvalidResponse) ==> code == "INTERNAL"@
        }),
{
    reveal_strlit("code");
    reveal_strlit("exit");
    reveal_strlit("message");
    reveal_strlit("retryable");
    reveal_strlit("details");
    assert("code"@[0] != "exit"@[0]);
    assert("message"@[0] != "details"@[0]);
    assert("code"@.len() == 4 && "exit"@.len() == 4 && "message"@.len() == 7 && "retryable"@.len() == 9
        && "details"@.len() == 7);
    let members = error.report_spec()->Object_0;
    reveal_with_fuel(lookup, 6);
    let rest = members.drop_first();
    assert(rest[0] == members[1]);
    assert(rest.drop_first()[0] == members[2]);
    assert(rest.drop_first().drop_first()[0] == members[3]);
    assert(rest.drop_first().drop_first().drop_first()[0] == members[4]);
}

/// Every finding is told, in its order, by its code, its place and its words.
pub proof fn law_findings_are_told(findings: Seq<FindingView>, index: int)
    requires
        0 <= index < findings.len(),
    ensures
        ({
            let told = findings_value(findings);
            let one = told->Array_0[index];
            &&& told is Array && told->Array_0.len() == findings.len()
            &&& member(one, "code"@) == Some(JsonValue::Text(findings[index].code))
            &&& member(one, "location"@) == Some(JsonValue::Text(findings[index].location))
            &&& member(one, "message"@) == Some(JsonValue::Text(findings[index].message))
        }),
{
    reveal_strlit("code");
    reveal_strlit("location");
    reveal_strlit("message");
    assert("code"@.len() == 4 && "location"@.len() == 8 && "message"@.len() == 7);
    let members = finding_value(findings[index])->Object_0;
    reveal_with_fuel(lookup, 4);
    assert(members.drop_first()[0] == members[1]);
    assert(members.drop_first().drop_first()[0] == members[2]);
}

/// A report on a component tells whether it is valid, every finding, and the manifest of a
/// valid one.
pub proof fn law_validations_are_told(validation: Validation)
    ensures
        ({
            let told = validation_value(validation);
            &&& member(told, "valid"@) == Some(JsonValue::Bool(validation.valid))
            &&& member(told, "findings"@) == Some(findings_value(finding_views(validation.findings@)))
            &&& member(told, "manifest"@) == match validation.manifest {
                Some(manifest) => Some(JsonValue::Text(manifest@)),
                None => Some(JsonValue::Null),
            }
        }),
{
    reveal_strlit("valid");
    reveal_strlit("findings");
    reveal_strlit("manifest");
    assert("findings"@[0] != "manifest"@[0]);
    assert("valid"@.len() == 5 && "findings"@.len() == 8 && "manifest"@.len() == 8);
    let members = validation_value(validation)->Object_0;
    reveal_with_fuel(lookup, 4);
    assert(members.drop_first()[0] == members[1]);
    assert(members.drop_first().drop_first()[0] == members[2]);
}

/// A failure that comes with findings shows all of them, and a refusal by the service shows
/// its status and what the service declares.
pub proof fn law_details_are_told(error: Error)
    ensures
        ({
            let details = error.details_spec();
            &&& error matches Error::Validation(findings) ==> member(details, "findings"@) == Some(
                findings_value(finding_views(findings@)),
            )
            &&& error matches Error::Manifest(_, findings) ==> member(details, "findings"@) == Some(
                findings_value(finding_views(findings@)),
            )
            &&& error matches Error::Component(reason) ==> member(details, "findings"@) == Some(
                findings_value(reason.findings_spec()),
            )
            &&& error matches Error::ComponentCheck(findings, manifest) ==> member(details, "findings"@) == Some(
                findings_value(finding_views(findings@)),
            ) && member(details, "check"@) is Some && member(member(details, "check"@)->0, "manifest"@) == Some(manifest@)
                && member(member(details, "check"@)->0, "valid"@) == Some(JsonValue::Bool(false)) && member(
                member(details, "check"@)->0,
                "findings"@,
            ) == Some(findings_value(finding_views(findings@)))
        }),
{
    reveal_strlit("valid");
    reveal_strlit("findings");
    reveal_strlit("manifest");
    reveal_strlit("check");
    assert("findings"@[0] != "manifest"@[0]);
    assert("valid"@.len() == 5 && "findings"@.len() == 8 && "manifest"@.len() == 8 && "check"@.len() == 5);
    reveal_with_fuel(lookup, 4);
    if let Error::ComponentCheck(findings, manifest) = error {
        let members = error.details_spec()->Object_0;
        assert(members.drop_first()[0] == members[1]);
        let check = check_value(finding_views(findings@), manifest@)->Object_0;
        assert(check.drop_first()[0] == check[1]);
        assert(check.drop_first().drop_first()[0] == check[2]);
    }
}

/// What a refusal by the service tells: its status, the code that it declares, and the
/// errors that it lists, where it lists any.
pub proof fn law_refusals_are_told(status: u16, request: bool, problem: Problem)
    ensures
        ({
            let plain = PublicationError::Client { request, status: Some(status), problem: None };
            let declared = PublicationError::Client { request, status: Some(status), problem: Some(problem) };
            let number = Some(JsonValue::Number(NumberView::Unsigned(status as u64)));
            let errors = problem.errors;
            &&& member(plain.details_spec(), "status"@) == number
            &&& member(plain.details_spec(), "code"@) is None
            &&& member(declared.details_spec(), "status"@) == number
            &&& member(declared.details_spec(), "code"@) == Some(JsonValue::Text(problem.code@))
            &&& errors is Some && errors->0@.len() > 0 ==> member(declared.details_spec(), "errors"@) == Some(
                JsonValue::Array(values_of(errors->0@)),
            )
            &&& errors is None || errors->0@.len() == 0 ==> member(declared.details_spec(), "errors"@) is None
        }),
{
    reveal_strlit("status");
    reveal_strlit("code");
    reveal_strlit("errors");
    assert("status"@[0] != "errors"@[0]);
    assert("status"@.len() == 6 && "code"@.len() == 4 && "errors"@.len() == 6);
    let shown = seq![("status"@, unsigned(status as u64))];
    reveal_with_fuel(lookup, 3);
    law_put_member_changes_one(shown, "code"@, JsonValue::Text(problem.code@), "status"@);
    law_put_member_changes_one(shown, "code"@, JsonValue::Text(problem.code@), "errors"@);
    let coded = with_member(shown, "code"@, JsonValue::Text(problem.code@));
    if let Some(errors) = problem.errors {
        law_put_member_changes_one(coded, "errors"@, JsonValue::Array(values_of(errors@)), "status"@);
        law_put_member_changes_one(coded, "errors"@, JsonValue::Array(values_of(errors@)), "code"@);
    }
}

/// A failure that was given words tells these words, and one with a cause those of the cause;
/// a diagnostic shows of which kind a failure is, and nothing of its contents.
pub proof fn law_failures_tell_their_words(error: Error)
    ensures
        error matches Error::Usage(words) ==> error.message_spec() == words@ && error.name_spec() == "Usage"@,
        error matches Error::Invalid(words) ==> error.message_spec() == words@ && error.name_spec() == "Invalid"@,
        error matches Error::Manifest(words, _) ==> error.message_spec() == words@ && error.name_spec() == "Manifest"@,
        error matches Error::SourceFilename(words) ==> error.message_spec() == words@ && error.name_spec()
            == "SourceFilename"@,
        error matches Error::InvalidResponse(words) ==> error.message_spec() == words@ && error.name_spec()
            == "InvalidResponse"@,
        error matches Error::Execution(cause) ==> error.message_spec() == cause.message_spec() && error.name_spec()
            == "Execution"@,
        error matches Error::Host(cause) ==> error.message_spec() == cause.message_spec() && error.name_spec() == "Host"@,
        error matches Error::Release(cause) ==> error.message_spec() == cause.message_spec() && error.name_spec()
            == "Release"@,
        error matches Error::ValidationInput(cause) ==> error.message_spec() == cause.message_spec() && error.name_spec()
            == "ValidationInput"@,
        error is Validation ==> error.name_spec() == "Validation"@,
        error is ComponentCheck ==> error.name_spec() == "ComponentCheck"@,
        error is Component ==> error.name_spec() == "Component"@,
        error is Png ==> error.name_spec() == "Png"@,
        error is Http ==> error.name_spec() == "Http"@,
        error is Publication ==> error.name_spec() == "Publication"@,
        error is Json ==> error.name_spec() == "Json"@,
        error is Io ==> error.name_spec() == "Io"@,
{
}

/// Words about an invalid input end those that tell of it, whoever found it.
pub proof fn law_invalid_inputs_are_told(host: HostError, execution: ExecutionError)
    ensures
        host matches HostError::Invalid(words) ==> words@.is_suffix_of(host.message_spec()) && host.message_spec().len()
            == 25 + words@.len(),
        execution matches ExecutionError::Invalid(words) ==> words@.is_suffix_of(execution.message_spec())
            && execution.message_spec().len() == 25 + words@.len(),
{
    reveal_strlit("invalid extension input: ");
    assert("invalid extension input: "@.len() == 25);
    if let HostError::Invalid(words) = host {
        let told = host.message_spec();
        assert(told.subrange(told.len() - words@.len(), told.len() as int) =~= words@);
    }
    if let ExecutionError::Invalid(words) = execution {
        let told = execution.message_spec();
        assert(told.subrange(told.len() - words@.len(), told.len() as int) =~= words@);
    }
}

} // verus!

//! The commit of the SDK that a build of the tool comes from.

use vstd::prelude::*;
use vstd::string::*;

use crate::json::{member, text_in, Json, JsonValue};
use crate::scaffold::{full_commit, hexadecimal, is_commit};
use crate::text::{in_small_letters, joined, same_text, small, trim_text, trimmed, write_small};

verus! {

/// Where a commit was found.
#[derive(Clone, Copy, Debug, PartialEq, Eq, Structural)]
pub enum Origin {
    /// The environment variable `SLOPER_EXTENSION_SDK_REVISION`.
    Variable,
    /// The file `release-revision` of the package.
    ReleaseFile,
    /// The Git metadata that Cargo packs.
    Package,
    /// The head of the SDK's own checkout.
    Checkout,
}

/// Why there is no telling which commit a build comes from.
#[derive(Clone, Copy, Debug, PartialEq, Eq, Structural)]
pub enum ProvenanceError {
    /// What was found there is no full commit.
    InvalidRevision(Origin),
    /// Cargo's metadata has a dirty flag that is no boolean.
    InvalidDirtyFlag,
    /// Cargo's metadata is no JSON.
    Metadata,
    /// A file could not be read.
    Io,
    /// Git could not resolve the head.
    GitFailed,
    /// What Git answered is no UTF-8.
    GitEncoding,
}

impl Origin {
    /// The words for this place.
    pub open spec fn text_spec(self) -> Seq<char> {
        match self {
            Origin::Variable => "SLOPER_EXTENSION_SDK_REVISION"@,
            Origin::ReleaseFile => "release-revision"@,
            Origin::Package => "Cargo package git.sha1"@,
            Origin::Checkout => "SDK checkout Git HEAD"@,
        }
    }

    /// Returns the words for this place.
    pub fn text(self) -> (text: &'static str)
        ensures
            text@ == self.text_spec(),
    {
        match self {
            Origin::Variable => "SLOPER_EXTENSION_SDK_REVISION",
            Origin::ReleaseFile => "release-revision",
            Origin::Package => "Cargo package git.sha1",
            Origin::Checkout => "SDK checkout Git HEAD",
        }
    }
}

impl ProvenanceError {
    /// The words for this error.
    pub open spec fn message_spec(self) -> Seq<char> {
        match self {
            ProvenanceError::InvalidRevision(origin) => origin.text_spec()
                + " must contain a full 40-character hexadecimal Git revision"@,
            ProvenanceError::InvalidDirtyFlag => "Cargo package git.dirty must be a boolean"@,
            ProvenanceError::Metadata => "Cargo package .cargo_vcs_info.json contains malformed JSON"@,
            ProvenanceError::Io => "SDK build provenance could not be read"@,
            ProvenanceError::GitFailed => "SDK checkout Git HEAD could not be resolved"@,
            ProvenanceError::GitEncoding => "SDK checkout Git HEAD is not UTF-8"@,
        }
    }

    /// Returns the words for this error.
    pub fn message(self) -> (message: String)
        ensures
            message@ == self.message_spec(),
    {
        match self {
            ProvenanceError::InvalidRevision(origin) => joined(
                origin.text(),
                " must contain a full 40-character hexadecimal Git revision",
            ),
            ProvenanceError::InvalidDirtyFlag => "Cargo package git.dirty must be a boolean".to_owned(),
            ProvenanceError::Metadata => "Cargo package .cargo_vcs_info.json contains malformed JSON".to_owned(),
            ProvenanceError::Io => "SDK build provenance could not be read".to_owned(),
            ProvenanceError::GitFailed => "SDK checkout Git HEAD could not be resolved".to_owned(),
            ProvenanceError::GitEncoding => "SDK checkout Git HEAD is not UTF-8".to_owned(),
        }
    }
}

/// The commit that `value` gives, in small letters.
pub open spec fn revision_of(value: Option<Seq<char>>, origin: Origin) -> Result<Seq<char>, ProvenanceError> {
    match value {
        Some(value) => if is_commit(value) {
            Ok(in_small_letters(value))
        } else {
            Err(ProvenanceError::InvalidRevision(origin))
        },
        None => Err(ProvenanceError::InvalidRevision(origin)),
    }
}

/// Checks that `value` is a full commit, and writes it in small letters.
pub fn validated_revision(value: Option<&str>, origin: Origin) -> (revision: Result<String, ProvenanceError>)
    ensures
        match revision_of(
            match value {
                Some(value) => Some(value@),
                None => None,
            },
            origin,
        ) {
            Ok(expected) => revision matches Ok(revision) && revision@ == expected,
            Err(error) => revision == Err::<String, _>(error),
        },
{
    match value {
        Some(value) => {
            if !full_commit(value) {
                return Err(ProvenanceError::InvalidRevision(origin));
            }
            Ok(write_small(value))
        },
        None => Err(ProvenanceError::InvalidRevision(origin)),
    }
}

/// What Cargo's packed metadata says of the commit: nothing where the package holds
/// uncommitted changes.
pub open spec fn packaged_revision(metadata: JsonValue) -> Result<Option<Seq<char>>, ProvenanceError> {
    let git = member(metadata, "git"@);
    let hash = match git {
        Some(git) => text_in(member(git, "sha1"@)),
        None => None,
    };
    match revision_of(hash, Origin::Package) {
        Err(error) => Err(error),
        Ok(revision) => match git {
            None => Ok(Some(revision)),
            Some(git) => match member(git, "dirty"@) {
                Some(JsonValue::Bool(true)) => Ok(None),
                Some(JsonValue::Bool(false)) => Ok(Some(revision)),
                None => Ok(Some(revision)),
                Some(_) => Err(ProvenanceError::InvalidDirtyFlag),
            },
        },
    }
}

/// Reads the commit from Cargo's packed metadata.
///
/// An archive with uncommitted changes cannot claim to come from the commit that it
/// records.
pub fn package_revision(metadata: &Json) -> (revision: Result<Option<String>, ProvenanceError>)
    ensures
        match packaged_revision(metadata@) {
            Err(error) => revision == Err::<Option<String>, _>(error),
            Ok(None) => revision == Ok::<_, ProvenanceError>(None::<String>),
            Ok(Some(expected)) => revision matches Ok(Some(revision)) && revision@ == expected,
        },
{
    let git = metadata.get("git");
    let hash = match git {
        Some(git) => git.get_text("sha1"),
        None => None,
    };
    let revision = match validated_revision(hash, Origin::Package) {
        Ok(revision) => revision,
        Err(error) => return Err(error),
    };
    let dirty = match git {
        Some(git) => git.get("dirty"),
        None => None,
    };
    match dirty {
        None => Ok(Some(revision)),
        Some(Json::Bool(dirty)) => {
            if *dirty {
                Ok(None)
            } else {
                Ok(Some(revision))
            }
        },
        Some(_) => Err(ProvenanceError::InvalidDirtyFlag),
    }
}

/// What became of reading a file.
pub enum Found<T> {
    Missing,
    Unreadable,
    Read(T),
}

/// What there is to tell which commit a build comes from. What stands behind something
/// that decides need not be gathered.
pub struct Evidence {
    /// The environment variable, where it is set, and its text, where it is Unicode.
    pub variable: Option<Option<String>>,
    /// The text of `release-revision`.
    pub release: Found<String>,
    /// Cargo's packed metadata, where it is JSON.
    pub package: Found<Option<Json>>,
    /// The name of the package's directory.
    pub directory: Option<String>,
    /// The name of the directory above it.
    pub parent: Option<String>,
    /// Whether the directory above that one holds `.git`, where there is one.
    pub marker: Found<()>,
    /// What Git answers for the head.
    pub head: Result<String, ProvenanceError>,
}

/// The package stands in the SDK's own checkout: in `crates/sloper-extension-cli`. A
/// package elsewhere must not borrow the head of a repository around it.
pub open spec fn in_checkout(evidence: Evidence) -> bool {
    &&& evidence.parent matches Some(parent) && parent@ == "crates"@
    &&& evidence.directory matches Some(directory) && directory@ == "sloper-extension-cli"@
}

/// The commit that a build comes from: the variable decides before the release file,
/// that before Cargo's metadata, and that before the checkout.
pub open spec fn resolved_revision(evidence: Evidence) -> Result<Option<Seq<char>>, ProvenanceError> {
    match evidence.variable {
        Some(value) => some_revision(
            revision_of(
                match value {
                    Some(value) => Some(value@),
                    None => None,
                },
                Origin::Variable,
            ),
        ),
        None => match evidence.release {
            Found::Read(text) => some_revision(revision_of(Some(trimmed(text@)), Origin::ReleaseFile)),
            Found::Unreadable => Err(ProvenanceError::Io),
            Found::Missing => match evidence.package {
                Found::Read(Some(metadata)) => packaged_revision(metadata@),
                Found::Read(None) => Err(ProvenanceError::Metadata),
                Found::Unreadable => Err(ProvenanceError::Io),
                Found::Missing => if !in_checkout(evidence) {
                    Ok(None)
                } else {
                    match evidence.marker {
                        Found::Missing => Ok(None),
                        Found::Unreadable => Err(ProvenanceError::Io),
                        Found::Read(_) => match evidence.head {
                            Err(error) => Err(error),
                            Ok(head) => some_revision(revision_of(Some(head@), Origin::Checkout)),
                        },
                    }
                },
            },
        },
    }
}

/// A commit that is there.
pub open spec fn some_revision(revision: Result<Seq<char>, ProvenanceError>) -> Result<
    Option<Seq<char>>,
    ProvenanceError,
> {
    match revision {
        Ok(revision) => Ok(Some(revision)),
        Err(error) => Err(error),
    }
}

/// Decides which commit a build comes from, if it comes from one.
pub fn resolve_revision(evidence: &Evidence) -> (revision: Result<Option<String>, ProvenanceError>)
    ensures
        match resolved_revision(*evidence) {
            Err(error) => revision == Err::<Option<String>, _>(error),
            Ok(None) => revision == Ok::<_, ProvenanceError>(None::<String>),
            Ok(Some(expected)) => revision matches Ok(Some(revision)) && revision@ == expected,
        },
{
    let validated = if let Some(value) = &evidence.variable {
        match value {
            Some(value) => validated_revision(Some(value.as_str()), Origin::Variable),
            None => validated_revision(None, Origin::Variable),
        }
    } else {
        match &evidence.release {
            Found::Read(text) => validated_revision(Some(trim_text(text.as_str()).as_str()), Origin::ReleaseFile),
            Found::Unreadable => return Err(ProvenanceError::Io),
            Found::Missing => {
                match &evidence.package {
                    Found::Read(Some(metadata)) => return package_revision(metadata),
                    Found::Read(None) => return Err(ProvenanceError::Metadata),
                    Found::Unreadable => return Err(ProvenanceError::Io),
                    Found::Missing => {},
                }
                match (&evidence.parent, &evidence.directory) {
                    (Some(parent), Some(directory)) => {
                        if !same_text(parent.as_str(), "crates") || !same_text(
                            directory.as_str(),
                            "sloper-extension-cli",
                        ) {
                            return Ok(None);
                        }
                    },
                    _ => return Ok(None),
                }
                match &evidence.marker {
                    Found::Missing => return Ok(None),
                    Found::Unreadable => return Err(ProvenanceError::Io),
                    Found::Read(_) => {},
                }
                match &evidence.head {
                    Ok(head) => validated_revision(Some(head.as_str()), Origin::Checkout),
                    Err(error) => return Err(*error),
                }
            },
        }
    };
    match validated {
        Ok(revision) => Ok(Some(revision)),
        Err(error) => Err(error),
    }
}

/// Returns the commit that a build was found to come from, where it comes from one.
pub fn sdk_revision(resolved: &Result<Option<String>, ProvenanceError>) -> (revision: Option<&str>)
    ensures
        match resolved {
            Ok(Some(expected)) => revision matches Some(revision) && revision@ == expected@,
            _ => revision is None,
        },
{
    match resolved {
        Ok(Some(revision)) => Some(revision.as_str()),
        _ => None,
    }
}

/// A variable that is set decides alone, whatever else there is.
pub proof fn law_explicit_revision_decides(evidence: Evidence, others: Evidence)
    requires
        evidence.variable is Some,
        evidence.variable == others.variable,
    ensures
        resolved_revision(evidence) == resolved_revision(others),
        resolved_revision(evidence) != Ok::<_, ProvenanceError>(None::<Seq<char>>),
{
}

/// A package that holds metadata, or stands outside the SDK's checkout, never takes the
/// head of a repository around it.
pub proof fn law_packages_never_borrow_a_head(evidence: Evidence, others: Evidence)
    requires
        evidence.variable == others.variable,
        evidence.release == others.release,
        evidence.package == others.package,
        evidence.parent == others.parent,
        evidence.directory == others.directory,
        evidence.package is Read || !in_checkout(evidence),
    ensures
        resolved_revision(evidence) == resolved_revision(others),
{
}

/// Only full commits in small letters are ever resolved.
pub proof fn law_resolved_revisions_are_commits(evidence: Evidence)
    ensures
        resolved_revision(evidence) matches Ok(Some(revision)) ==> is_commit(revision) && in_small_letters(revision)
            == revision,
{
    let resolved = resolved_revision(evidence);
    if let Ok(Some(revision)) = resolved {
        assert(exists|value: Seq<char>| #[trigger] is_commit(value) && revision == in_small_letters(value));
        let value = choose|value: Seq<char>| #[trigger] is_commit(value) && revision == in_small_letters(value);
        assert forall|index: int| 0 <= index < revision.len() implies hexadecimal(
            #[trigger] revision[index],
        ) && small(revision[index]) == revision[index] by {
            assert(hexadecimal(value[index]));
            assert(revision[index] == small(value[index]));
        }
        assert(in_small_letters(revision) =~= revision);
    }
}

/// What stands somewhere names a commit: one of forty hexadecimal digits, in small letters.
pub open spec fn names_commit(value: Seq<char>, revision: Seq<char>) -> bool {
    is_commit(value) && revision == in_small_letters(value)
}

/// The variable, where it is set, tells the commit, and nothing but a commit is taken from
/// it; so does the release file behind it, without the white space around its text.
pub proof fn law_told_commits(evidence: Evidence, revision: Seq<char>)
    ensures
        evidence.variable matches Some(Some(value)) ==> (resolved_revision(evidence) == Ok::<
            Option<Seq<char>>,
            ProvenanceError,
        >(Some(revision)) <==> names_commit(value@, revision)),
        evidence.variable matches Some(Some(value)) ==> (!is_commit(value@) ==> resolved_revision(evidence) == Err::<
            Option<Seq<char>>,
            ProvenanceError,
        >(ProvenanceError::InvalidRevision(Origin::Variable))),
        evidence.variable == Some(None::<String>) ==> resolved_revision(evidence) == Err::<
            Option<Seq<char>>,
            ProvenanceError,
        >(ProvenanceError::InvalidRevision(Origin::Variable)),
        evidence.variable is None ==> (evidence.release matches Found::Read(text) ==> (resolved_revision(evidence)
            == Ok::<Option<Seq<char>>, ProvenanceError>(Some(revision)) <==> names_commit(trimmed(text@), revision))),
        evidence.variable is None && evidence.release is Unreadable ==> resolved_revision(evidence) == Err::<
            Option<Seq<char>>,
            ProvenanceError,
        >(ProvenanceError::Io),
{
}

/// A package tells the commit that its metadata holds, and none where the metadata says that
/// the package held changes besides.
pub proof fn law_packaged_commits(metadata: JsonValue)
    ensures
        ({
            let git = member(metadata, "git"@);
            let hash = member(git->0, "sha1"@);
            let dirty = member(git->0, "dirty"@);
            let whole = git is Some && hash is Some && hash->0 is Text && is_commit(hash->0->Text_0);
            &&& !whole ==> packaged_revision(metadata) == Err::<Option<Seq<char>>, ProvenanceError>(
                ProvenanceError::InvalidRevision(Origin::Package),
            )
            &&& whole && dirty == Some(JsonValue::Bool(true)) ==> packaged_revision(metadata) == Ok::<
                Option<Seq<char>>,
                ProvenanceError,
            >(None)
            &&& whole && (dirty is None || dirty == Some(JsonValue::Bool(false))) ==> packaged_revision(metadata) == Ok::<
                Option<Seq<char>>,
                ProvenanceError,
            >(Some(in_small_letters(hash->0->Text_0)))
            &&& whole && dirty is Some && !(dirty->0 is Bool) ==> packaged_revision(metadata) == Err::<
                Option<Seq<char>>,
                ProvenanceError,
            >(ProvenanceError::InvalidDirtyFlag)
        }),
{
}

/// Where nothing tells the commit, the head of a repository does, and that only of the SDK's
/// own checkout: the package in its directory, under that of the crates, with a repository
/// above.
pub proof fn law_heads_of_checkouts(evidence: Evidence, revision: Seq<char>)
    requires
        evidence.variable is None,
        evidence.release is Missing,
        evidence.package is Missing,
    ensures
        ({
            let inside = evidence.parent is Some && evidence.parent->0@ == "crates"@ && evidence.directory is Some
                && evidence.directory->0@ == "sloper-extension-cli"@;
            let found = resolved_revision(evidence);
            &&& !inside || evidence.marker is Missing ==> found == Ok::<Option<Seq<char>>, ProvenanceError>(None)
            &&& inside && evidence.marker is Read && evidence.head is Ok ==> (found == Ok::<
                Option<Seq<char>>,
                ProvenanceError,
            >(Some(revision)) <==> names_commit(evidence.head->Ok_0@, revision))
            &&& inside && evidence.marker is Read && evidence.head is Err ==> found == Err::<
                Option<Seq<char>>,
                ProvenanceError,
            >(evidence.head->Err_0)
            &&& inside && evidence.marker is Unreadable ==> found == Err::<Option<Seq<char>>, ProvenanceError>(
                ProvenanceError::Io,
            )
        }),
{
}

} // verus!

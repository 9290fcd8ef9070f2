//! Admitting components and releases to a host, and beginning attempts.

use vstd::prelude::*;
use vstd::string::*;

use crate::component::{extract_manifest, manifest_of, ComponentError, Finding};
use crate::envelope::Rejection;
use crate::host::ExecutionError;
use crate::json::{equal_json, kept, same_json, Json};
use crate::limits::{attempt_duration, BACKGROUND_DEADLINE, FOREGROUND_DEADLINE};
use crate::manifest::{Manifest, Mode};
use crate::release::{pairs_of, Release, ReleaseError};
use crate::request::{request_fault, validate_request, Request, Verdicts};
use crate::world::{validate_component, world_fault, HostWorld};

verus! {

/// Exact bytes of a component that a host admits, and the manifest in them.
#[derive(Debug)]
pub struct AdmittedComponent {
    pub component: Vec<u8>,
    pub manifest: Manifest,
    pub manifest_bytes: Vec<u8>,
}

impl AdmittedComponent {
    /// The manifest bytes are those that the component carries.
    pub open spec fn wf(&self) -> bool {
        manifest_of(self.component@) == Ok::<Seq<u8>, Rejection>(self.manifest_bytes@)
    }

    /// Returns the exact bytes of the component.
    pub fn component(&self) -> (component: &[u8])
        ensures
            component@ == self.component@,
    {
        self.component.as_slice()
    }

    /// Returns the validated manifest.
    pub fn manifest(&self) -> (manifest: &Manifest)
        ensures
            *manifest == self.manifest,
    {
        &self.manifest
    }

    /// Returns the exact bytes of the manifest.
    pub fn manifest_bytes(&self) -> (bytes: &[u8])
        ensures
            bytes@ == self.manifest_bytes@,
    {
        self.manifest_bytes.as_slice()
    }
}

/// Admits a component without any action.
///
/// `manifest` is what the manifest parser makes of the embedded manifest, and
/// `instantiated` what became of instantiating the component, which only a valid one is.
pub fn admit_component(
    component: &[u8],
    manifest: Result<Manifest, Vec<Finding>>,
    host: &HostWorld,
    instantiated: Result<(), ExecutionError>,
) -> (admitted: Result<AdmittedComponent, ExecutionError>)
    ensures
        match manifest_of(component@) {
            Err(rejection) => admitted == Err::<AdmittedComponent, _>(
                ExecutionError::Component(ComponentError::Rejected(rejection)),
            ),
            Ok(embedded) => match manifest {
                Err(findings) => admitted == Err::<AdmittedComponent, _>(
                    ExecutionError::Component(ComponentError::Manifest(findings)),
                ),
                Ok(parsed) => match world_fault(component@, pairs_of(host.packages@), host.source@) {
                    Some(fault) => admitted matches Err(ExecutionError::Component(error)) && error@ == fault,
                    None => match instantiated {
                        Err(error) => admitted == Err::<AdmittedComponent, _>(error),
                        Ok(_) => {
                            &&& admitted matches Ok(admitted)
                            &&& admitted.wf()
                            &&& admitted.component@ == component@
                            &&& admitted.manifest == parsed
                            &&& admitted.manifest_bytes@ == embedded
                        },
                    },
                },
            },
        },
{
    let (verdict, parsed) = match manifest {
        Ok(parsed) => (Ok(()), Some(parsed)),
        Err(findings) => (Err(findings), None),
    };
    match validate_component(component, verdict, host) {
        Ok(_) => {},
        Err(error) => return Err(ExecutionError::Component(error)),
    }
    let embedded = match extract_manifest(component) {
        Ok(embedded) => embedded,
        Err(error) => return Err(ExecutionError::Component(error)),
    };
    match instantiated {
        Ok(_) => {},
        Err(error) => return Err(error),
    }
    match parsed {
        Some(manifest) => Ok(
            AdmittedComponent {
                component: vstd::slice::slice_to_vec(component),
                manifest,
                manifest_bytes: vstd::slice::slice_to_vec(embedded),
            },
        ),
        None => vstd::pervasive::unreached(),
    }
}

/// An authentic release and the component that a host admits for it.
#[derive(Debug)]
pub struct AdmittedRelease {
    pub release: Release,
    pub component: AdmittedComponent,
}

impl AdmittedRelease {
    /// Returns the authentic release.
    pub fn release(&self) -> (release: &Release)
        ensures
            *release == self.release,
    {
        &self.release
    }

    /// Returns the admitted component.
    pub fn component(&self) -> (component: &AdmittedComponent)
        ensures
            *component == self.component,
    {
        &self.component
    }
}

/// Completes the admission of a release: `admitted` is what became of admitting its
/// component.
pub fn complete_release(release: Release, admitted: Result<AdmittedComponent, ExecutionError>) -> (completed: Result<
    AdmittedRelease,
    ReleaseError,
>)
    ensures
        match admitted {
            Ok(component) => completed == Ok::<_, ReleaseError>(AdmittedRelease { release, component }),
            Err(error) => completed matches Err(ReleaseError::Admission(reason)) && reason@ == error.message_spec(),
        },
{
    match admitted {
        Ok(component) => Ok(AdmittedRelease { release, component }),
        Err(error) => Err(ReleaseError::Admission(error.message())),
    }
}

/// How long an attempt may run, in nanoseconds, or why it does not begin. `same` says
/// whether the pinned manifest is the one that the component carries.
pub open spec fn begins(
    same: bool,
    manifest: Manifest,
    request: Request,
    verdicts: Verdicts,
    duration: Result<u64, ExecutionError>,
) -> bool {
    if !same {
        duration matches Err(ExecutionError::Invalid(words)) && words@ == "pinned manifest does not match component"@
    } else {
        match request_fault(manifest, request, verdicts) {
            Some(fault) => duration matches Err(ExecutionError::Invalid(words)) && words@ == fault.text_spec(),
            None => duration == Ok::<u64, ExecutionError>(
                match manifest.actions@[request.action@].mode {
                    Mode::Foreground => FOREGROUND_DEADLINE,
                    Mode::Background => BACKGROUND_DEADLINE,
                },
            ),
        }
    }
}

/// Decides whether an attempt may begin, and how long it may run, in nanoseconds. `same`
/// says whether the pinned manifest is the one that the component carries.
pub fn begin_pinned(same: bool, manifest: &Manifest, request: &Request, verdicts: &Verdicts) -> (duration: Result<
    u64,
    ExecutionError,
>)
    requires
        manifest.wf(),
    ensures
        begins(same, *manifest, *request, *verdicts, duration),
{
    if !same {
        return Err(ExecutionError::Invalid("pinned manifest does not match component"));
    }
    match validate_request(manifest, request, verdicts) {
        Ok(_) => {},
        Err(fault) => return Err(ExecutionError::Invalid(fault.text())),
    }
    match manifest.actions.get(request.action.as_str()) {
        Some(action) => Ok(attempt_duration(action.mode)),
        None => vstd::pervasive::unreached(),
    }
}

/// Decides whether an attempt of a component may begin with pinned inputs, and how long it
/// may run, in nanoseconds.
///
/// `embedded` is the manifest that the component carries, as it is declared, or why the
/// component is invalid; `pinned` is the pinned manifest as it is declared, and `manifest`
/// the same manifest parsed.
pub fn begin_attempt(
    embedded: Result<Json, ComponentError>,
    pinned: &Json,
    manifest: &Manifest,
    request: &Request,
    verdicts: &Verdicts,
) -> (duration: Result<u64, ExecutionError>)
    requires
        manifest.wf(),
    ensures
        match embedded {
            Err(error) => duration == Err::<u64, _>(ExecutionError::Component(error)),
            Ok(found) => begins(equal_json(kept(found@), kept(pinned@)), *manifest, *request, *verdicts, duration),
        },
{
    match embedded {
        Err(error) => Err(ExecutionError::Component(error)),
        Ok(found) => begin_pinned(same_json(&found, pinned), manifest, request, verdicts),
    }
}

/// An attempt runs for as long as the mode of its action allows: five minutes in the
/// foreground, and six hours in the background.
pub proof fn law_attempts_are_timed(
    manifest: Manifest,
    request: Request,
    verdicts: Verdicts,
    duration: Result<u64, ExecutionError>,
)
    requires
        begins(true, manifest, request, verdicts, duration),
    ensures
        duration is Ok <==> request_fault(manifest, request, verdicts) is None,
        duration matches Ok(nanoseconds) ==> nanoseconds == match manifest.actions@[request.action@].mode {
            Mode::Foreground => 300_000_000_000u64,
            Mode::Background => 21_600_000_000_000u64,
        },
        forall|other: Result<u64, ExecutionError>| #[trigger]
            begins(false, manifest, request, verdicts, other) ==> other is Err,
{
}

} // verus!

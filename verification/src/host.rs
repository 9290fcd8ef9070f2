//! Errors between an attempt, its guest and the adapter that lends capabilities.

use vstd::prelude::*;

use crate::component::ComponentError;

verus! {

/// What an adapter reports of a capability call. Causes are kept as text.
#[derive(Debug)]
pub enum HostError {
    /// The owner must repair the declared provider connection.
    Unauthorized,
    /// The guest supplied an invalid argument.
    Invalid(&'static str),
    /// An item or source exceeds its ceiling.
    TooLarge,
    /// Cancellation or a stale attempt prevents further calls.
    Stopped,
    /// A lent source is unreadable.
    SourceUnreadable,
    /// Reading a lent source failed for this cause.
    SourceRead(String),
    /// Writing a produced source failed for this cause.
    SourceWrite(String),
    /// The call may succeed in a later attempt.
    Unavailable,
}

/// What the guest learns of a failed call.
#[derive(Debug)]
pub enum GuestError {
    Unauthorized,
    Invalid(&'static str),
    TooLarge,
    Cancelled,
    Unavailable(&'static str),
}

impl HostError {
    /// What the guest learns of this error: no cause.
    pub open spec fn shown(&self) -> GuestError {
        match self {
            HostError::Unauthorized => GuestError::Unauthorized,
            HostError::Invalid(message) => GuestError::Invalid(*message),
            HostError::TooLarge => GuestError::TooLarge,
            HostError::Stopped => GuestError::Cancelled,
            HostError::SourceUnreadable => GuestError::Unavailable("source could not be read"),
            HostError::SourceRead(_) => GuestError::Unavailable("source could not be read"),
            HostError::SourceWrite(_) => GuestError::Unavailable("source could not be written"),
            HostError::Unavailable => GuestError::Unavailable("extension host is unavailable"),
        }
    }

    /// Returns what the guest learns of this error.
    pub fn to_guest(&self) -> (error: GuestError)
        ensures
            error == self.shown(),
    {
        match self {
            HostError::Unauthorized => GuestError::Unauthorized,
            HostError::Invalid(message) => GuestError::Invalid(message),
            HostError::TooLarge => GuestError::TooLarge,
            HostError::Stopped => GuestError::Cancelled,
            HostError::SourceUnreadable => GuestError::Unavailable("source could not be read"),
            HostError::SourceRead(_) => GuestError::Unavailable("source could not be read"),
            HostError::SourceWrite(_) => GuestError::Unavailable("source could not be written"),
            HostError::Unavailable => GuestError::Unavailable("extension host is unavailable"),
        }
    }
}

/// Why an attempt did not complete. Causes are kept as text.
#[derive(Debug)]
pub enum ExecutionError {
    /// The component is invalid.
    Component(ComponentError),
    /// The engine failed.
    Runtime(String),
    /// The guest trapped.
    Trapped(String),
    /// The pinned request disagrees with the component.
    Invalid(&'static str),
    /// The deadline passed.
    Deadline,
    /// The grace period after a cancellation ended.
    Stopped,
    /// A source writer failed or did not finish.
    SourceFailed,
    /// A lent source could not be read.
    SourceUnreadable,
    /// A lent source could not be read, for this cause.
    SourceRead(String),
    /// The guest failed after an item of it was refused.
    ItemInvalid,
    /// A ceiling was exceeded.
    LimitExceeded,
    /// The adapter failed.
    Host(HostError),
}

/// A provider or resource that is to be tried again, and not before an instant
/// given as seconds and nanoseconds since the start of 1970.
#[derive(Debug)]
pub struct Retry {
    pub message: String,
    pub not_before: Option<(u64, u32)>,
}

/// What a guest reports where its action failed.
#[derive(Debug)]
pub enum Failure {
    InvalidParameters(String),
    NotConnected(String),
    Rejected(String),
    Internal(String),
    Unavailable(Retry),
}

/// What a failure says.
pub ghost enum FailureView {
    InvalidParameters(Seq<char>),
    NotConnected(Seq<char>),
    Rejected(Seq<char>),
    Internal(Seq<char>),
    Unavailable(Seq<char>, Option<(u64, u32)>),
}

impl View for Failure {
    type V = FailureView;

    open spec fn view(&self) -> FailureView {
        match self {
            Failure::InvalidParameters(message) => FailureView::InvalidParameters(message@),
            Failure::NotConnected(message) => FailureView::NotConnected(message@),
            Failure::Rejected(message) => FailureView::Rejected(message@),
            Failure::Internal(message) => FailureView::Internal(message@),
            Failure::Unavailable(retry) => FailureView::Unavailable(retry.message@, retry.not_before),
        }
    }
}

} // verus!

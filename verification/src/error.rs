//! The error taxonomy of the store and the properties codec.

use vstd::prelude::*;

verus! {

/// Mathematical image of an [`Error`], with each carried string
/// abstracted to its character sequence.
pub ghost enum ErrorView {
    /// A referenced configuration name does not exist.
    NotFound(Seq<char>),
    /// The destination name already exists and the conflict policy
    /// requires failure.
    Conflict(Seq<char>),
    /// A supplied name violates the allowed-character or non-empty
    /// constraint.
    InvalidName(Seq<char>),
    /// An operation requiring an active configuration found none set.
    NoActiveConfiguration,
    /// Malformed key-file content; carries the offending line.
    SerializationError(Seq<char>),
    /// An underlying storage failure, described by the caller.
    IoError(Seq<char>),
    /// The active marker references a configuration that does not exist.
    CorruptState(Seq<char>),
}

/// A typed failure of a store operation or of the properties codec.
///
/// Every failure carries enough context (the offending name or line)
/// for the caller to produce an actionable message; the library itself
/// performs no user-facing formatting.
#[derive(Debug)]
pub enum Error {
    /// A referenced configuration name does not exist.
    NotFound(String),
    /// The destination name already exists and the conflict policy
    /// requires failure.
    Conflict(String),
    /// A supplied name violates the allowed-character or non-empty
    /// constraint.
    InvalidName(String),
    /// An operation requiring an active configuration found none set.
    NoActiveConfiguration,
    /// Malformed key-file content; carries the offending line.
    SerializationError(String),
    /// An underlying storage failure, described by the caller.
    IoError(String),
    /// The active marker references a configuration that does not exist.
    CorruptState(String),
}

impl View for Error {
    type V = ErrorView;

    open spec fn view(&self) -> ErrorView {
        match self {
            Error::NotFound(s) => ErrorView::NotFound(s@),
            Error::Conflict(s) => ErrorView::Conflict(s@),
            Error::InvalidName(s) => ErrorView::InvalidName(s@),
            Error::NoActiveConfiguration => ErrorView::NoActiveConfiguration,
            Error::SerializationError(s) => ErrorView::SerializationError(s@),
            Error::IoError(s) => ErrorView::IoError(s@),
            Error::CorruptState(s) => ErrorView::CorruptState(s@),
        }
    }
}

impl Error {
    /// True iff this is the `NotFound` variant; lets unverified callers
    /// and tests branch on the kind without a `Display` impl.
    pub fn is_not_found(&self) -> (r: bool)
        ensures
            r == (self@ matches ErrorView::NotFound(_)),
    {
        match self {
            Error::NotFound(_) => true,
            _ => false,
        }
    }

    /// True iff this is the `Conflict` variant.
    pub fn is_conflict(&self) -> (r: bool)
        ensures
            r == (self@ matches ErrorView::Conflict(_)),
    {
        match self {
            Error::Conflict(_) => true,
            _ => false,
        }
    }

    /// True iff this is the `InvalidName` variant.
    pub fn is_invalid_name(&self) -> (r: bool)
        ensures
            r == (self@ matches ErrorView::InvalidName(_)),
    {
        match self {
            Error::InvalidName(_) => true,
            _ => false,
        }
    }

    /// True iff this is the `NoActiveConfiguration` variant.
    pub fn is_no_active_configuration(&self) -> (r: bool)
        ensures
            r == (self@ matches ErrorView::NoActiveConfiguration),
    {
        match self {
            Error::NoActiveConfiguration => true,
            _ => false,
        }
    }

    /// True iff this is the `SerializationError` variant.
    pub fn is_serialization_error(&self) -> (r: bool)
        ensures
            r == (self@ matches ErrorView::SerializationError(_)),
    {
        match self {
            Error::SerializationError(_) => true,
            _ => false,
        }
    }

    /// True iff this is the `CorruptState` variant.
    pub fn is_corrupt_state(&self) -> (r: bool)
        ensures
            r == (self@ matches ErrorView::CorruptState(_)),
    {
        match self {
            Error::CorruptState(_) => true,
            _ => false,
        }
    }
}

} // verus!

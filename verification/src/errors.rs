//! The failures that the outside services report.

use vstd::prelude::*;

verus! {

/// Failures of the remote data source.
#[derive(Clone, Copy, Debug, PartialEq, Eq, Structural)]
pub enum SourceError {
    /// Network or transport failure.
    Unavailable,
    /// The response does not have the shape of a division.
    Malformed,
    /// The source has no division with the requested identifier.
    NotFound,
}

/// Failures of the division store.
#[derive(Clone, Copy, Debug, PartialEq, Eq, Structural)]
pub enum StoreError {
    /// The store cannot be reached, or cannot take the write.
    Unavailable,
    /// The division already has a mapping.
    DuplicateMapping,
}

/// Failures of the chat platform.
#[derive(Clone, Copy, Debug, PartialEq, Eq, Structural)]
pub enum PlatformError {
    /// Network or authentication failure.
    Unavailable,
    /// The platform refused the call (permissions, rate limit).
    Rejected,
    /// The thread no longer exists.
    ThreadNotFound,
}

/// What stopped the processing of one division.
#[derive(Clone, Copy, Debug, PartialEq, Eq, Structural)]
pub enum Failure {
    Source(SourceError),
    Store(StoreError),
    Platform(PlatformError),
}

impl Failure {
    /// The name under which the failure is written to the log.
    pub open spec fn spec_label(self) -> Seq<char> {
        match self {
            Failure::Source(SourceError::Unavailable) => "SourceUnavailable"@,
            Failure::Source(SourceError::Malformed) => "SourceMalformed"@,
            Failure::Source(SourceError::NotFound) => "SourceNotFound"@,
            Failure::Store(StoreError::Unavailable) => "StoreUnavailable"@,
            Failure::Store(StoreError::DuplicateMapping) => "DuplicateMapping"@,
            Failure::Platform(PlatformError::Unavailable) => "PlatformUnavailable"@,
            Failure::Platform(PlatformError::Rejected) => "PlatformRejected"@,
            Failure::Platform(PlatformError::ThreadNotFound) => "ThreadNotFound"@,
        }
    }

    /// The name under which the failure is written to the log.
    pub fn label(&self) -> (name: &'static str)
        ensures
            name@ == self.spec_label(),
    {
        match self {
            Failure::Source(SourceError::Unavailable) => "SourceUnavailable",
            Failure::Source(SourceError::Malformed) => "SourceMalformed",
            Failure::Source(SourceError::NotFound) => "SourceNotFound",
            Failure::Store(StoreError::Unavailable) => "StoreUnavailable",
            Failure::Store(StoreError::DuplicateMapping) => "DuplicateMapping",
            Failure::Platform(PlatformError::Unavailable) => "PlatformUnavailable",
            Failure::Platform(PlatformError::Rejected) => "PlatformRejected",
            Failure::Platform(PlatformError::ThreadNotFound) => "ThreadNotFound",
        }
    }
}

} // verus!

//! The error taxonomy shared by resolvers, the fetcher, the registry and the
//! backup store.

use vstd::prelude::*;

verus! {

/// Which integrity check an artifact failed.
#[derive(Clone, Copy, Debug, PartialEq, Eq, Structural)]
pub enum IntegrityKind {
    /// The body's byte length differed from the expected size.
    Size,
    /// The body's digest differed from the expected digest.
    Digest,
}

/// Every failure the core can report.
#[derive(Clone, Copy, Debug, PartialEq, Eq, Structural)]
pub enum Error {
    /// The requested version id does not exist upstream.
    VersionNotFound,
    /// The upstream API call failed or returned unparseable data.
    UpstreamUnavailable,
    /// A downloaded body disagreed with its expected size or digest.
    IntegrityMismatch(IntegrityKind),
    /// The registry file held unparseable content.
    RegistryCorrupt,
    /// An instance with the same name already exists.
    NameCollision,
    /// No instance or backup with the given name exists.
    NotFound,
    /// A subtree being backed up, restored or set lacks the structural marker.
    SourceInvalid,
    /// A filesystem operation failed.
    IOFailure,
    /// An update was requested for an instance already at the target
    /// version and flavor; nothing needs to be downloaded.
    AlreadyCurrent,
}

impl Error {
    /// A short human-readable description of the failure.
    pub fn message(&self) -> (r: &'static str)
        ensures
            r@ == spec_message(*self),
    {
        match self {
            Error::VersionNotFound => "version not found",
            Error::UpstreamUnavailable => "upstream unavailable",
            Error::IntegrityMismatch(IntegrityKind::Size) => "size mismatch",
            Error::IntegrityMismatch(IntegrityKind::Digest) => "digest mismatch",
            Error::RegistryCorrupt => "registry corrupt",
            Error::NameCollision => "name already taken",
            Error::NotFound => "not found",
            Error::SourceInvalid => "missing structural marker",
            Error::IOFailure => "filesystem operation failed",
            Error::AlreadyCurrent => "already on the given version and flavor",
        }
    }
}

/// The text `Error::message` returns for each variant.
pub open spec fn spec_message(e: Error) -> Seq<char> {
    match e {
        Error::VersionNotFound => "version not found"@,
        Error::UpstreamUnavailable => "upstream unavailable"@,
        Error::IntegrityMismatch(IntegrityKind::Size) => "size mismatch"@,
        Error::IntegrityMismatch(IntegrityKind::Digest) => "digest mismatch"@,
        Error::RegistryCorrupt => "registry corrupt"@,
        Error::NameCollision => "name already taken"@,
        Error::NotFound => "not found"@,
        Error::SourceInvalid => "missing structural marker"@,
        Error::IOFailure => "filesystem operation failed"@,
        Error::AlreadyCurrent => "already on the given version and flavor"@,
    }
}

} // verus!

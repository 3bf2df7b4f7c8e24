use slapaman::errors::{Error, IntegrityKind};

#[test]
fn every_failure_has_a_description() {
    assert_eq!(Error::VersionNotFound.message(), "version not found");
    assert_eq!(Error::UpstreamUnavailable.message(), "upstream unavailable");
    assert_eq!(Error::IntegrityMismatch(IntegrityKind::Size).message(), "size mismatch");
    assert_eq!(Error::IntegrityMismatch(IntegrityKind::Digest).message(), "digest mismatch");
    assert_eq!(Error::RegistryCorrupt.message(), "registry corrupt");
    assert_eq!(Error::NameCollision.message(), "name already taken");
    assert_eq!(Error::NotFound.message(), "not found");
    assert_eq!(Error::SourceInvalid.message(), "missing structural marker");
    assert_eq!(Error::IOFailure.message(), "filesystem operation failed");
    assert_eq!(Error::AlreadyCurrent.message(), "already on the given version and flavor");
}

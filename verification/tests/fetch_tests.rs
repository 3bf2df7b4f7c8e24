use slapaman::errors::{Error, IntegrityKind};
use slapaman::fabric::{fabric_resolution, get_fabric_version_url};
use slapaman::fetch::{
    artifact_write_allowed, verify_artifact, ExpectedHash, HashAlgorithm,
};
use slapaman::paper::{get_paper_version_url, paper_resolution, PaperBuild};
use slapaman::version::{Version, VersionType};

const SHA1_ABC: &str = "a9993e364706816aba3e25717850c26c9cd0d89d";
const SHA256_ABC: &str = "ba7816bf8f01cfea414140de5dae2223b00361a396177a9cb410ff61f20015ad";

fn sha1_abc() -> Option<ExpectedHash> {
    Some(ExpectedHash { algorithm: HashAlgorithm::Sha1, hex_digest: String::from(SHA1_ABC) })
}

#[test]
fn size_mismatch_is_rejected_before_persist() {
    let body = vec![b'a', b'b', b'c'];
    let r = verify_artifact(body, &Some(2), &sha1_abc());
    assert_eq!(r.unwrap_err(), Error::IntegrityMismatch(IntegrityKind::Size));
}

#[test]
fn wrong_digest_is_rejected() {
    let body = vec![b'a', b'b', b'c'];
    let wrong = Some(ExpectedHash {
        algorithm: HashAlgorithm::Sha1,
        hex_digest: String::from("0000000000000000000000000000000000000000"),
    });
    let r = verify_artifact(body, &Some(3), &wrong);
    assert_eq!(r.unwrap_err(), Error::IntegrityMismatch(IntegrityKind::Digest));
}

#[test]
fn matching_body_passes_and_is_returned_unchanged() {
    let body = vec![b'a', b'b', b'c'];
    let r = verify_artifact(body, &Some(3), &sha1_abc()).unwrap();
    assert_eq!(r, vec![b'a', b'b', b'c']);
}

#[test]
fn digest_comparison_is_case_insensitive() {
    let body = vec![b'a', b'b', b'c'];
    let upper = Some(ExpectedHash {
        algorithm: HashAlgorithm::Sha1,
        hex_digest: String::from("A9993E364706816ABA3E25717850C26C9CD0D89D"),
    });
    assert!(verify_artifact(body, &Some(3), &upper).is_ok());
}

#[test]
fn sha256_digest_is_checked() {
    let body = vec![b'a', b'b', b'c'];
    let good = Some(ExpectedHash {
        algorithm: HashAlgorithm::Sha256,
        hex_digest: String::from(SHA256_ABC),
    });
    assert!(verify_artifact(body.clone(), &Some(3), &good).is_ok());
    let bad = Some(ExpectedHash {
        algorithm: HashAlgorithm::Sha256,
        hex_digest: String::from(
            "0000000000000000000000000000000000000000000000000000000000000000",
        ),
    });
    assert_eq!(
        verify_artifact(body, &Some(3), &bad).unwrap_err(),
        Error::IntegrityMismatch(IntegrityKind::Digest)
    );
}

#[test]
fn no_expected_checks_accepts_any_body() {
    let body = vec![1u8, 2, 3, 4];
    let r = verify_artifact(body, &None, &None).unwrap();
    assert_eq!(r, vec![1u8, 2, 3, 4]);
}

#[test]
fn persist_refuses_existing_artifact_without_overwrite() {
    assert!(!artifact_write_allowed(true, false));
    assert!(artifact_write_allowed(true, true));
    assert!(artifact_write_allowed(false, false));
    assert!(artifact_write_allowed(false, true));
}

#[test]
fn paper_url_is_built_from_the_id() {
    let v = Version::new(String::from("1.20.1"), VersionType::Release);
    assert_eq!(
        get_paper_version_url(&v).unwrap(),
        "https://fill.papermc.io/v3/projects/paper/versions/1.20.1/builds"
    );
}

#[test]
fn paper_takes_the_first_build_as_newest() {
    let builds = vec![
        PaperBuild {
            url: String::from("https://example.test/paper-200.jar"),
            size: 10,
            sha256: String::from(SHA256_ABC),
        },
        PaperBuild {
            url: String::from("https://example.test/paper-199.jar"),
            size: 9,
            sha256: String::from("ff"),
        },
    ];
    let res = paper_resolution(&builds).unwrap();
    assert_eq!(res.download_url, "https://example.test/paper-200.jar");
    assert_eq!(res.expected_size, Some(10));
    let h = res.expected_hash.unwrap();
    assert_eq!(h.algorithm, HashAlgorithm::Sha256);
    assert_eq!(h.hex_digest, SHA256_ABC);
}

#[test]
fn paper_empty_build_list_is_version_not_found() {
    let builds: Vec<PaperBuild> = Vec::new();
    assert_eq!(paper_resolution(&builds).unwrap_err(), Error::VersionNotFound);
}

#[test]
fn fabric_url_uses_defaults_when_versions_are_omitted() {
    let v = Version::new(String::from("1.20.1"), VersionType::Release);
    assert_eq!(
        get_fabric_version_url(&v, None, None).unwrap(),
        "https://meta.fabricmc.net/v2/versions/loader/1.20.1/0.17.3/1.1.0/server/jar"
    );
}

#[test]
fn fabric_url_uses_given_versions() {
    let v = Version::new(String::from("1.20.1"), VersionType::Release);
    let loader = String::from("0.16.0");
    let installer = String::from("1.0.1");
    assert_eq!(
        get_fabric_version_url(&v, Some(&loader), Some(&installer)).unwrap(),
        "https://meta.fabricmc.net/v2/versions/loader/1.20.1/0.16.0/1.0.1/server/jar"
    );
}

#[test]
fn fabric_resolution_has_no_integrity_data() {
    let res = fabric_resolution(String::from("https://example.test/fabric.jar"));
    assert_eq!(res.download_url, "https://example.test/fabric.jar");
    assert!(res.expected_size.is_none());
    assert!(res.expected_hash.is_none());
}

#[test]
fn vanilla_end_to_end_accepts_only_the_declared_sha1() {
    // Scenario: the manifest points latest.release at 1.20.1; its metadata
    // declares size 3 and the SHA-1 of b"abc" for the server artifact.
    let manifest = slapaman::version::VersionManifest {
        latest_release: String::from("1.20.1"),
        latest_snapshot: String::from("25w17a"),
        versions: vec![slapaman::version::ManifestEntry {
            id: String::from("1.20.1"),
            url: String::from("https://example.test/meta/1.20.1.json"),
        }],
    };
    let spec = Version::new(String::from("latest"), VersionType::Release);
    let meta_url = slapaman::version::resolve_version(&manifest, &spec).unwrap();
    assert_eq!(meta_url, "https://example.test/meta/1.20.1.json");

    let meta = slapaman::version::VersionMetadata {
        server_url: String::from("https://example.test/server.jar"),
        size: 3,
        sha1: String::from(SHA1_ABC),
    };
    let res = slapaman::version::vanilla_resolution(&meta);

    let good_body = vec![b'a', b'b', b'c'];
    let verified =
        verify_artifact(good_body, &res.expected_size, &res.expected_hash).unwrap();
    assert_eq!(verified, vec![b'a', b'b', b'c']);

    let tampered = vec![b'a', b'b', b'd'];
    assert_eq!(
        verify_artifact(tampered, &res.expected_size, &res.expected_hash).unwrap_err(),
        Error::IntegrityMismatch(IntegrityKind::Digest)
    );
}

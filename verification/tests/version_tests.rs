use slapaman::errors::Error;
use slapaman::version::{
    get_latest_version_id, format_version_string, resolve_version, vanilla_resolution,
    ManifestEntry, Version, VersionManifest, VersionMetadata, VersionType,
};
use slapaman::fetch::HashAlgorithm;

fn manifest_fixture() -> VersionManifest {
    VersionManifest {
        latest_release: String::from("1.20.1"),
        latest_snapshot: String::from("25w17a"),
        versions: vec![
            ManifestEntry {
                id: String::from("25w17a"),
                url: String::from("https://example.test/meta/25w17a.json"),
            },
            ManifestEntry {
                id: String::from("1.20.1"),
                url: String::from("https://example.test/meta/1.20.1.json"),
            },
            ManifestEntry {
                id: String::from("1.19.4"),
                url: String::from("https://example.test/meta/1.19.4.json"),
            },
        ],
    }
}

#[test]
fn parse_release_with_id() {
    let v = Version::from_string(String::from("release-1.20.1"));
    assert_eq!(v.v_type, VersionType::Release);
    assert_eq!(v.v_id, "1.20.1");
}

#[test]
fn parse_snapshot_latest() {
    let v = Version::from_string(String::from("snapshot-latest"));
    assert_eq!(v.v_type, VersionType::Snapshot);
    assert_eq!(v.v_id, "latest");
}

#[test]
fn parse_without_separator_defaults_to_release() {
    let v = Version::from_string(String::from("25w17a"));
    assert_eq!(v.v_type, VersionType::Release);
    assert_eq!(v.v_id, "25w17a");
}

#[test]
fn parse_then_format_round_trips() {
    for s in ["release-1.20.1", "snapshot-25w17a", "release-latest", "snapshot-latest"] {
        let v = Version::from_string(String::from(s));
        assert_eq!(v.to_string(), s);
    }
}

#[test]
fn to_string_renders_kind_and_id() {
    let v = Version::new(String::from("1.19.4"), VersionType::Release);
    assert_eq!(v.to_string(), "release-1.19.4");
    let v = Version::new(String::from("25w17a"), VersionType::Snapshot);
    assert_eq!(v.to_string(), "snapshot-25w17a");
}

#[test]
fn latest_pointer_per_kind() {
    let m = manifest_fixture();
    assert_eq!(get_latest_version_id(&m, VersionType::Release), "1.20.1");
    assert_eq!(get_latest_version_id(&m, VersionType::Snapshot), "25w17a");
}

#[test]
fn resolve_latest_release_follows_pointer() {
    let m = manifest_fixture();
    let v = Version::new(String::from("latest"), VersionType::Release);
    let url = resolve_version(&m, &v).unwrap();
    assert_eq!(url, "https://example.test/meta/1.20.1.json");
}

#[test]
fn resolve_latest_snapshot_follows_pointer() {
    let m = manifest_fixture();
    let v = Version::new(String::from("latest"), VersionType::Snapshot);
    let url = resolve_version(&m, &v).unwrap();
    assert_eq!(url, "https://example.test/meta/25w17a.json");
}

#[test]
fn resolve_concrete_id() {
    let m = manifest_fixture();
    let v = Version::new(String::from("1.19.4"), VersionType::Release);
    let url = resolve_version(&m, &v).unwrap();
    assert_eq!(url, "https://example.test/meta/1.19.4.json");
}

#[test]
fn resolve_unknown_id_fails() {
    let m = manifest_fixture();
    let v = Version::new(String::from("1.7.10"), VersionType::Release);
    assert_eq!(resolve_version(&m, &v).unwrap_err(), Error::VersionNotFound);
}

#[test]
fn vanilla_resolution_carries_size_and_sha1() {
    let meta = VersionMetadata {
        server_url: String::from("https://example.test/server.jar"),
        size: 3,
        sha1: String::from("a9993e364706816aba3e25717850c26c9cd0d89d"),
    };
    let res = vanilla_resolution(&meta);
    assert_eq!(res.download_url, "https://example.test/server.jar");
    assert_eq!(res.expected_size, Some(3));
    let h = res.expected_hash.unwrap();
    assert_eq!(h.algorithm, HashAlgorithm::Sha1);
    assert_eq!(h.hex_digest, "a9993e364706816aba3e25717850c26c9cd0d89d");
}

#[test]
fn format_version_string_substitutes_latest() {
    let v = Version::new(String::from("latest"), VersionType::Release);
    assert_eq!(format_version_string(&v, &String::from("1.21.5")), "release-1.21.5");
    let v = Version::new(String::from("1.20.1"), VersionType::Release);
    assert_eq!(format_version_string(&v, &String::from("ignored")), "release-1.20.1");
}

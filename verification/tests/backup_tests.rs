use slapaman::backup::{
    build_backup_name, create_world_backup, restore_world_backup, sanitize_tag,
    unique_backup_path, Backup, InstanceData, Timestamp,
};
use slapaman::errors::Error;
use slapaman::world::{set_world, validate_world_root, WorldEntry};

fn ts() -> Timestamp {
    Timestamp { year: 2024, month: 1, day: 2, hour: 3, minute: 4, second: 5 }
}

fn entry(name: &str, data: &[u8]) -> WorldEntry {
    WorldEntry { name: String::from(name), data: data.to_vec() }
}

fn world_fixture() -> Vec<WorldEntry> {
    vec![entry("level.dat", b"seed"), entry("region", b"chunks")]
}

#[test]
fn sanitize_keeps_word_characters_and_replaces_the_rest() {
    assert_eq!(sanitize_tag("my world!"), "my-world");
    assert_eq!(sanitize_tag("Pre_1.20"), "Pre_1_20");
    assert_eq!(sanitize_tag("--keep--"), "keep");
    assert_eq!(sanitize_tag("___"), "");
    assert_eq!(sanitize_tag(""), "");
    assert_eq!(sanitize_tag("A b-C_d"), "A-b-C_d");
}

#[test]
fn backup_name_is_subtree_timestamp_and_tag() {
    assert_eq!(build_backup_name("world", &ts(), &None), "world-20240102-030405");
    assert_eq!(
        build_backup_name("world", &ts(), &Some(String::from("pre update"))),
        "world-20240102-030405-pre-update"
    );
    assert_eq!(
        build_backup_name("world", &ts(), &Some(String::from("---"))),
        "world-20240102-030405"
    );
}

#[test]
fn timestamp_fields_are_zero_padded() {
    let t = Timestamp { year: 987, month: 12, day: 31, hour: 23, minute: 59, second: 7 };
    assert_eq!(build_backup_name("world", &t, &None), "world-09871231-235907");
}

#[test]
fn unique_name_appends_two_digit_suffixes() {
    let existing = vec![String::from("base")];
    assert_eq!(unique_backup_path(&existing, "base").unwrap(), "base-01");
    let existing = vec![String::from("base"), String::from("base-01")];
    assert_eq!(unique_backup_path(&existing, "base").unwrap(), "base-02");
    let existing: Vec<String> = Vec::new();
    assert_eq!(unique_backup_path(&existing, "base").unwrap(), "base");
}

#[test]
fn two_backups_in_the_same_second_differ_by_suffix() {
    let mut data = InstanceData { world: Some(world_fixture()), backups: Vec::new() };
    let tag = Some(String::from("nightly"));
    let first = create_world_backup(&mut data, &ts(), &tag).unwrap();
    let second = create_world_backup(&mut data, &ts(), &tag).unwrap();
    assert_eq!(first, "world-20240102-030405-nightly");
    assert_eq!(second, "world-20240102-030405-nightly-01");
    assert_eq!(data.backups.len(), 2);
    // Both snapshots hold independent copies of the subtree.
    for b in &data.backups {
        assert_eq!(b.entries.len(), 2);
        assert_eq!(b.entries[0].name, "level.dat");
        assert_eq!(b.entries[0].data, b"seed");
    }
    // Changing the live world later does not touch the snapshots.
    data.world = Some(vec![entry("level.dat", b"changed")]);
    assert_eq!(data.backups[0].entries[1].data, b"chunks");
}

#[test]
fn the_hundred_and_first_backup_in_one_second_fails() {
    let mut data = InstanceData { world: Some(world_fixture()), backups: Vec::new() };
    for _ in 0..100 {
        create_world_backup(&mut data, &ts(), &None).unwrap();
    }
    assert_eq!(data.backups.len(), 100);
    assert_eq!(create_world_backup(&mut data, &ts(), &None).unwrap_err(), Error::IOFailure);
    assert_eq!(data.backups.len(), 100);
}

#[test]
fn backup_of_invalid_world_is_refused() {
    let mut data = InstanceData { world: None, backups: Vec::new() };
    assert_eq!(create_world_backup(&mut data, &ts(), &None).unwrap_err(), Error::SourceInvalid);
    let mut data = InstanceData {
        world: Some(vec![entry("region", b"chunks")]),
        backups: Vec::new(),
    };
    assert_eq!(create_world_backup(&mut data, &ts(), &None).unwrap_err(), Error::SourceInvalid);
    assert!(data.backups.is_empty());
}

#[test]
fn restore_replaces_the_live_world() {
    let mut data = InstanceData { world: Some(world_fixture()), backups: Vec::new() };
    let name = create_world_backup(&mut data, &ts(), &None).unwrap();
    data.world = Some(vec![entry("level.dat", b"corrupted")]);
    restore_world_backup(&mut data, &name).unwrap();
    let world = data.world.as_ref().unwrap();
    assert_eq!(world.len(), 2);
    assert_eq!(world[0].data, b"seed");
    assert_eq!(world[1].name, "region");
}

#[test]
fn restore_is_idempotent() {
    let mut data = InstanceData { world: Some(world_fixture()), backups: Vec::new() };
    let name = create_world_backup(&mut data, &ts(), &None).unwrap();
    data.world = Some(vec![entry("level.dat", b"other")]);
    restore_world_backup(&mut data, &name).unwrap();
    let after_first: Vec<(String, Vec<u8>)> = data
        .world
        .as_ref()
        .unwrap()
        .iter()
        .map(|e| (e.name.clone(), e.data.clone()))
        .collect();
    restore_world_backup(&mut data, &name).unwrap();
    let after_second: Vec<(String, Vec<u8>)> = data
        .world
        .as_ref()
        .unwrap()
        .iter()
        .map(|e| (e.name.clone(), e.data.clone()))
        .collect();
    assert_eq!(after_first, after_second);
}

#[test]
fn restore_of_unknown_backup_fails() {
    let mut data = InstanceData { world: Some(world_fixture()), backups: Vec::new() };
    assert_eq!(
        restore_world_backup(&mut data, &String::from("missing")).unwrap_err(),
        Error::NotFound
    );
}

#[test]
fn restore_of_backup_without_marker_fails() {
    let mut data = InstanceData {
        world: Some(world_fixture()),
        backups: vec![Backup {
            name: String::from("broken"),
            entries: vec![entry("region", b"x")],
        }],
    };
    assert_eq!(
        restore_world_backup(&mut data, &String::from("broken")).unwrap_err(),
        Error::SourceInvalid
    );
    // The live world is untouched by the failed restore.
    assert_eq!(data.world.as_ref().unwrap()[0].data, b"seed");
}

#[test]
fn set_world_validates_and_copies_the_source() {
    let mut live: Option<Vec<WorldEntry>> = None;
    let source = world_fixture();
    set_world(&mut live, &source).unwrap();
    assert_eq!(live.as_ref().unwrap().len(), 2);
    let bad = vec![entry("region", b"x")];
    assert_eq!(set_world(&mut live, &bad).unwrap_err(), Error::SourceInvalid);
    // A failed set leaves the live world as it was.
    assert_eq!(live.as_ref().unwrap()[0].name, "level.dat");
}

#[test]
fn validate_world_root_checks_presence_and_marker() {
    assert_eq!(validate_world_root(&None).unwrap_err(), Error::SourceInvalid);
    assert!(validate_world_root(&Some(world_fixture())).is_ok());
    assert_eq!(
        validate_world_root(&Some(vec![entry("region", b"x")])).unwrap_err(),
        Error::SourceInvalid
    );
}

use slapaman::errors::Error;
use slapaman::server::{
    add_server_to_list, copy_commit, does_server_exist, list_servers, move_commit, move_plan,
    remove_server_from_list, rename_commit, rename_plan, update_server_by_name, Server,
};

fn record(name: &str, path: &str, version: &str, flavor: &str) -> Server {
    Server::new(
        &String::from(name),
        &String::from(path),
        &String::from(version),
        &String::from(flavor),
    )
}

#[test]
fn new_record_starts_with_null_blobs_and_unaccepted_eula() {
    let s = record("alpha", "/srv", "release-1.20.1", "vanilla");
    assert_eq!(s.name, "alpha");
    assert_eq!(s.path, "/srv");
    assert_eq!(s.version, "release-1.20.1");
    assert_eq!(s.flavor, "vanilla");
    assert_eq!(s.banned_ips, "null");
    assert_eq!(s.server_properties, "null");
    assert!(!s.eula);
}

#[test]
fn add_then_find_returns_the_added_record() {
    let mut servers: Vec<Server> = Vec::new();
    let s = record("alpha", "/srv", "release-1.20.1", "vanilla");
    add_server_to_list(&mut servers, &s).unwrap();
    let found = Server::load_by_name(&servers, &String::from("alpha")).unwrap();
    assert_eq!(found.name, "alpha");
    assert_eq!(found.path, "/srv");
    assert_eq!(found.version, "release-1.20.1");
    assert_eq!(found.flavor, "vanilla");
}

#[test]
fn add_duplicate_name_fails_without_mutating() {
    let mut servers: Vec<Server> = Vec::new();
    add_server_to_list(&mut servers, &record("alpha", "/srv", "v1", "vanilla")).unwrap();
    let e = add_server_to_list(&mut servers, &record("alpha", "/other", "v2", "paper"))
        .unwrap_err();
    assert_eq!(e, Error::NameCollision);
    assert_eq!(servers.len(), 1);
    assert_eq!(servers[0].path, "/srv");
    assert_eq!(servers[0].version, "v1");
}

#[test]
fn remove_then_find_fails_with_not_found() {
    let mut servers: Vec<Server> = Vec::new();
    add_server_to_list(&mut servers, &record("alpha", "/srv", "v1", "vanilla")).unwrap();
    add_server_to_list(&mut servers, &record("beta", "/srv2", "v1", "paper")).unwrap();
    let alpha = Server::load_by_name(&servers, &String::from("alpha")).unwrap();
    remove_server_from_list(&mut servers, &alpha).unwrap();
    let e = Server::load_by_name(&servers, &String::from("alpha")).unwrap_err();
    assert_eq!(e, Error::NotFound);
    assert!(does_server_exist(&servers, &String::from("beta")));
}

#[test]
fn remove_missing_name_fails_with_not_found() {
    let mut servers: Vec<Server> = Vec::new();
    let ghost_rec = record("nobody", "/", "v", "vanilla");
    assert_eq!(remove_server_from_list(&mut servers, &ghost_rec).unwrap_err(), Error::NotFound);
}

#[test]
fn update_by_name_replaces_the_record() {
    let mut servers: Vec<Server> = Vec::new();
    add_server_to_list(&mut servers, &record("alpha", "/srv", "v1", "vanilla")).unwrap();
    let mut newer = record("alpha", "/srv", "v2", "paper");
    newer.eula = true;
    update_server_by_name(&mut servers, &String::from("alpha"), &newer).unwrap();
    assert_eq!(servers.len(), 1);
    let found = Server::load_by_name(&servers, &String::from("alpha")).unwrap();
    assert_eq!(found.version, "v2");
    assert_eq!(found.flavor, "paper");
    assert!(found.eula);
}

#[test]
fn rename_plan_reports_both_directory_paths() {
    let mut servers: Vec<Server> = Vec::new();
    add_server_to_list(&mut servers, &record("alpha", "/srv", "v1", "vanilla")).unwrap();
    let (from, to) =
        rename_plan(&servers, &String::from("alpha"), &String::from("omega")).unwrap();
    assert_eq!(from, "/srv/alpha");
    assert_eq!(to, "/srv/omega");
}

#[test]
fn rename_rejects_taken_name_and_missing_name() {
    let mut servers: Vec<Server> = Vec::new();
    add_server_to_list(&mut servers, &record("alpha", "/srv", "v1", "vanilla")).unwrap();
    add_server_to_list(&mut servers, &record("omega", "/srv2", "v1", "paper")).unwrap();
    assert_eq!(
        rename_plan(&servers, &String::from("alpha"), &String::from("omega")).unwrap_err(),
        Error::NameCollision
    );
    assert_eq!(
        rename_plan(&servers, &String::from("missing"), &String::from("x")).unwrap_err(),
        Error::NotFound
    );
}

#[test]
fn rename_commit_moves_the_record_to_the_new_name() {
    let mut servers: Vec<Server> = Vec::new();
    add_server_to_list(&mut servers, &record("alpha", "/srv", "v1", "vanilla")).unwrap();
    rename_commit(&mut servers, &String::from("alpha"), &String::from("omega")).unwrap();
    assert!(!does_server_exist(&servers, &String::from("alpha")));
    let found = Server::load_by_name(&servers, &String::from("omega")).unwrap();
    assert_eq!(found.path, "/srv");
    assert_eq!(found.version, "v1");
}

#[test]
fn copy_commit_duplicates_under_the_new_name() {
    let mut servers: Vec<Server> = Vec::new();
    add_server_to_list(&mut servers, &record("alpha", "/srv", "v1", "vanilla")).unwrap();
    copy_commit(&mut servers, &String::from("alpha"), &String::from("alpha2")).unwrap();
    assert_eq!(servers.len(), 2);
    let orig = Server::load_by_name(&servers, &String::from("alpha")).unwrap();
    let copy = Server::load_by_name(&servers, &String::from("alpha2")).unwrap();
    assert_eq!(orig.version, copy.version);
    assert_eq!(orig.path, copy.path);
}

#[test]
fn move_plan_validates_and_reports_paths() {
    let mut servers: Vec<Server> = Vec::new();
    add_server_to_list(&mut servers, &record("alpha", "/srv", "v1", "vanilla")).unwrap();
    add_server_to_list(&mut servers, &record("beta", "/taken", "v1", "paper")).unwrap();
    let (from, to) =
        move_plan(&servers, &String::from("alpha"), &String::from("/new")).unwrap();
    assert_eq!(from, "/srv/alpha");
    assert_eq!(to, "/new/alpha");
    assert_eq!(
        move_plan(&servers, &String::from("alpha"), &String::from("/taken")).unwrap_err(),
        Error::NameCollision
    );
}

#[test]
fn move_commit_updates_the_root_path() {
    let mut servers: Vec<Server> = Vec::new();
    add_server_to_list(&mut servers, &record("alpha", "/srv", "v1", "vanilla")).unwrap();
    move_commit(&mut servers, &String::from("alpha"), &String::from("/new")).unwrap();
    let found = Server::load_by_name(&servers, &String::from("alpha")).unwrap();
    assert_eq!(found.path, "/new");
    assert_eq!(found.version, "v1");
}

#[test]
fn list_servers_renders_names_or_detail_lines() {
    let mut servers: Vec<Server> = Vec::new();
    add_server_to_list(&mut servers, &record("alpha", "/srv", "release-1.20.1", "vanilla"))
        .unwrap();
    add_server_to_list(&mut servers, &record("beta", "/other", "release-1.19.4", "paper"))
        .unwrap();
    let plain = list_servers(&servers, false);
    assert_eq!(plain, vec![String::from("alpha"), String::from("beta")]);
    let detailed = list_servers(&servers, true);
    assert_eq!(detailed[0], "alpha: /srv (release-1.20.1)");
    assert_eq!(detailed[1], "beta: /other (release-1.19.4)");
}

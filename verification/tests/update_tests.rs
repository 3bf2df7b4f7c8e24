use slapaman::errors::{Error, IntegrityKind};
use slapaman::fetch::{ExpectedHash, HashAlgorithm};
use slapaman::server::{add_server_to_list, Server};
use slapaman::update::{update_all_servers, update_plan, update_server, UpdateRequest};

const SHA1_ABC: &str = "a9993e364706816aba3e25717850c26c9cd0d89d";

fn record(name: &str, version: &str, flavor: &str) -> Server {
    Server::new(
        &String::from(name),
        &String::from("/srv"),
        &String::from(version),
        &String::from(flavor),
    )
}

fn good_request(name: &str) -> UpdateRequest {
    UpdateRequest {
        name: String::from(name),
        version_string: String::from("release-1.21.5"),
        flavor: String::from("vanilla"),
        body: vec![b'a', b'b', b'c'],
        expected_size: Some(3),
        expected_hash: Some(ExpectedHash {
            algorithm: HashAlgorithm::Sha1,
            hex_digest: String::from(SHA1_ABC),
        }),
    }
}

#[test]
fn plan_refuses_an_update_to_the_current_version_and_flavor() {
    let s = record("alpha", "release-1.21.5", "vanilla");
    let e = update_plan(&s, &String::from("release-1.21.5"), &String::from("vanilla"))
        .unwrap_err();
    assert_eq!(e, Error::AlreadyCurrent);
    assert!(update_plan(&s, &String::from("release-1.21.5"), &String::from("paper")).is_ok());
    assert!(update_plan(&s, &String::from("release-1.22"), &String::from("vanilla")).is_ok());
}

#[test]
fn update_commits_the_new_version() {
    let mut servers: Vec<Server> = Vec::new();
    add_server_to_list(&mut servers, &record("alpha", "release-1.20.1", "vanilla")).unwrap();
    update_server(&mut servers, &good_request("alpha")).unwrap();
    let s = Server::load_by_name(&servers, &String::from("alpha")).unwrap();
    assert_eq!(s.version, "release-1.21.5");
    assert_eq!(s.flavor, "vanilla");
    assert_eq!(s.path, "/srv");
}

#[test]
fn update_of_a_current_instance_is_a_reported_no_op() {
    let mut servers: Vec<Server> = Vec::new();
    add_server_to_list(&mut servers, &record("alpha", "release-1.21.5", "vanilla")).unwrap();
    let e = update_server(&mut servers, &good_request("alpha")).unwrap_err();
    assert_eq!(e, Error::AlreadyCurrent);
    let s = Server::load_by_name(&servers, &String::from("alpha")).unwrap();
    assert_eq!(s.version, "release-1.21.5");
}

#[test]
fn update_of_a_missing_instance_fails() {
    let mut servers: Vec<Server> = Vec::new();
    let e = update_server(&mut servers, &good_request("ghost")).unwrap_err();
    assert_eq!(e, Error::NotFound);
}

#[test]
fn update_with_bad_body_leaves_the_registry_untouched() {
    let mut servers: Vec<Server> = Vec::new();
    add_server_to_list(&mut servers, &record("alpha", "release-1.20.1", "vanilla")).unwrap();
    let mut req = good_request("alpha");
    req.body = vec![b'x', b'y', b'z'];
    let e = update_server(&mut servers, &req).unwrap_err();
    assert_eq!(e, Error::IntegrityMismatch(IntegrityKind::Digest));
    let s = Server::load_by_name(&servers, &String::from("alpha")).unwrap();
    assert_eq!(s.version, "release-1.20.1");
}

#[test]
fn update_all_isolates_a_failing_instance() {
    let mut servers: Vec<Server> = Vec::new();
    add_server_to_list(&mut servers, &record("one", "release-1.20.1", "vanilla")).unwrap();
    add_server_to_list(&mut servers, &record("two", "release-1.20.1", "vanilla")).unwrap();
    add_server_to_list(&mut servers, &record("three", "release-1.20.1", "vanilla")).unwrap();

    let mut bad = good_request("two");
    // The second instance's artifact arrives truncated.
    bad.body = vec![b'a', b'b'];
    let requests = vec![good_request("one"), bad, good_request("three")];

    let results = update_all_servers(&mut servers, &requests);
    assert_eq!(results.len(), 3);
    assert!(results[0].is_ok());
    assert_eq!(results[1], Err(Error::IntegrityMismatch(IntegrityKind::Size)));
    assert!(results[2].is_ok());

    let one = Server::load_by_name(&servers, &String::from("one")).unwrap();
    let two = Server::load_by_name(&servers, &String::from("two")).unwrap();
    let three = Server::load_by_name(&servers, &String::from("three")).unwrap();
    assert_eq!(one.version, "release-1.21.5");
    assert_eq!(two.version, "release-1.20.1");
    assert_eq!(three.version, "release-1.21.5");
}

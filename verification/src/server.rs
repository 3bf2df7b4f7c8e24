//! The instance registry: an ordered list of instance records keyed by a
//! unique name.
//!
//! The registry is persisted as one file holding one JSON array; reading and
//! writing that file is the caller's part. Everything here works on the
//! loaded list: lookup, append, removal, replacement, and the validation and
//! commit steps of the rename, copy and move operations. Multi-step
//! operations validate uniqueness first, mutate the filesystem next, and
//! commit the registry last; the plan and commit halves of each operation
//! are therefore separate functions.

use vstd::prelude::*;
use vstd::string::*;

use crate::errors::Error;
use crate::text::{path_join, spec_path_join};

verus! {

/// One instance record. The configuration blobs (`banned_ips` through
/// `server_properties`) are opaque JSON text, passed through unchanged; only
/// the EULA flag is ever flipped by this core.
#[derive(Debug)]
pub struct Server {
    pub name: String,
    pub path: String,
    pub version: String,
    pub flavor: String,
    pub banned_ips: String,
    pub banned_players: String,
    pub eula: bool,
    pub whitelist: String,
    pub ops: String,
    pub permissions: String,
    pub server_properties: String,
}

impl Clone for Server {
    /// Cloning keeps the value.
    fn clone(&self) -> (r: Self)
        ensures
            r == *self,
    {
        Server {
            name: self.name.clone(),
            path: self.path.clone(),
            version: self.version.clone(),
            flavor: self.flavor.clone(),
            banned_ips: self.banned_ips.clone(),
            banned_players: self.banned_players.clone(),
            eula: self.eula,
            whitelist: self.whitelist.clone(),
            ops: self.ops.clone(),
            permissions: self.permissions.clone(),
            server_properties: self.server_properties.clone(),
        }
    }
}

impl Server {
    /// A fresh record: every configuration blob starts as the JSON `null`,
    /// and the EULA starts unaccepted.
    pub fn new(name: &String, path: &String, version: &String, flavor: &String) -> (r: Self)
        ensures
            r.name == *name,
            r.path == *path,
            r.version == *version,
            r.flavor == *flavor,
            r.banned_ips@ == "null"@,
            r.banned_players@ == "null"@,
            r.eula == false,
            r.whitelist@ == "null"@,
            r.ops@ == "null"@,
            r.permissions@ == "null"@,
            r.server_properties@ == "null"@,
    {
        Server {
            name: name.clone(),
            path: path.clone(),
            version: version.clone(),
            flavor: flavor.clone(),
            banned_ips: String::from_str("null"),
            banned_players: String::from_str("null"),
            eula: false,
            whitelist: String::from_str("null"),
            ops: String::from_str("null"),
            permissions: String::from_str("null"),
            server_properties: String::from_str("null"),
        }
    }

    /// Finds the record with the given name in a loaded registry.
    pub fn load_by_name(servers: &Vec<Server>, name: &String) -> (r: Result<Server, Error>)
        ensures
            match r {
                Ok(s) => exists|i: int|
                    #[trigger] server_named_at(servers@, name@, i) && no_server_before(
                        servers@,
                        name@,
                        i,
                    ) && s == servers@[i],
                Err(e) => e == Error::NotFound && !has_server(servers@, name@),
            },
    {
        let mut i: usize = 0;
        while i < servers.len()
            invariant
                i <= servers@.len(),
                no_server_before(servers@, name@, i as int),
            decreases servers@.len() - i,
        {
            if servers[i].name == *name {
                let s = servers[i].clone();
                proof {
                    let wi = i as int;
                    assert(server_named_at(servers@, name@, wi) && no_server_before(
                        servers@,
                        name@,
                        wi,
                    ) && s == servers@[wi]);
                }
                return Ok(s);
            }
            i = i + 1;
        }
        proof {
            assert(forall|i: int| !server_named_at(servers@, name@, i));
        }
        Err(Error::NotFound)
    }
}

/// The record at position `i` carries the name.
pub open spec fn server_named_at(servers: Seq<Server>, name: Seq<char>, i: int) -> bool {
    0 <= i < servers.len() && servers[i].name@ == name
}

/// No record before position `k` carries the name.
pub open spec fn no_server_before(servers: Seq<Server>, name: Seq<char>, k: int) -> bool {
    forall|j: int| 0 <= j < k ==> servers[j].name@ != name
}

/// Some record carries the name.
pub open spec fn has_server(servers: Seq<Server>, name: Seq<char>) -> bool {
    exists|i: int| server_named_at(servers, name, i)
}

/// The registry's invariant: names are unique across the list.
pub open spec fn registry_wf(servers: Seq<Server>) -> bool {
    forall|i: int, j: int|
        #![trigger servers[i].name@, servers[j].name@]
        0 <= i < j < servers.len() ==> servers[i].name@ != servers[j].name@
}

/// Two first-match positions for the same name coincide.
pub proof fn lemma_first_match_unique(servers: Seq<Server>, name: Seq<char>, i: int, j: int)
    requires
        server_named_at(servers, name, i),
        no_server_before(servers, name, i),
        server_named_at(servers, name, j),
        no_server_before(servers, name, j),
    ensures
        i == j,
{
    if i < j {
        assert(servers[i].name@ != name);
    }
    if j < i {
        assert(servers[j].name@ != name);
    }
}

/// Whether a record with the given name exists.
pub fn does_server_exist(servers: &Vec<Server>, name: &String) -> (r: bool)
    ensures
        r == has_server(servers@, name@),
{
    match Server::load_by_name(servers, name) {
        Ok(_) => true,
        Err(_) => false,
    }
}

/// Appends a record, refusing a name that is already taken. On a collision
/// the registry is left untouched. Uniqueness of names is preserved.
pub fn add_server_to_list(servers: &mut Vec<Server>, server: &Server) -> (r: Result<(), Error>)
    ensures
        match r {
            Ok(_) => !has_server(old(servers)@, server.name@) && final(servers)@ == old(servers)@
                + seq![*server],
            Err(e) => e == Error::NameCollision && has_server(old(servers)@, server.name@)
                && final(servers)@ == old(servers)@,
        },
        registry_wf(old(servers)@) ==> registry_wf(final(servers)@),
{
    if does_server_exist(servers, &server.name) {
        return Err(Error::NameCollision);
    }
    servers.push(server.clone());
    proof {
        assert(servers@ =~= old(servers)@ + seq![*server]);
        if registry_wf(old(servers)@) {
            assert forall|i: int, j: int|
                0 <= i < j < servers@.len() implies #[trigger] servers@[i].name@
                != #[trigger] servers@[j].name@ by {
                if j == servers@.len() - 1 {
                    if servers@[i].name@ == server.name@ {
                        assert(server_named_at(old(servers)@, server.name@, i));
                    }
                }
            }
        }
    }
    Ok(())
}

/// Removes the first record carrying the given record's name, failing with
/// `NotFound` when none does. Uniqueness of names is preserved.
pub fn remove_server_from_list(servers: &mut Vec<Server>, server: &Server) -> (r: Result<
    (),
    Error,
>)
    ensures
        match r {
            Ok(_) => exists|i: int|
                #[trigger] server_named_at(old(servers)@, server.name@, i) && no_server_before(
                    old(servers)@,
                    server.name@,
                    i,
                ) && final(servers)@ == old(servers)@.remove(i),
            Err(e) => e == Error::NotFound && !has_server(old(servers)@, server.name@)
                && final(servers)@ == old(servers)@,
        },
        registry_wf(old(servers)@) ==> registry_wf(final(servers)@),
{
    let mut i: usize = 0;
    while i < servers.len()
        invariant
            i <= servers@.len(),
            servers@ == old(servers)@,
            no_server_before(servers@, server.name@, i as int),
        decreases servers@.len() - i,
    {
        if servers[i].name == server.name {
            servers.remove(i);
            proof {
                let wi = i as int;
                assert(server_named_at(old(servers)@, server.name@, wi) && no_server_before(
                    old(servers)@,
                    server.name@,
                    wi,
                ) && servers@ == old(servers)@.remove(wi));
                if registry_wf(old(servers)@) {
                    assert forall|p: int, q: int|
                        0 <= p < q < servers@.len() implies #[trigger] servers@[p].name@
                        != #[trigger] servers@[q].name@ by {
                        let p0 = if p < wi {
                            p
                        } else {
                            p + 1
                        };
                        let q0 = if q < wi {
                            q
                        } else {
                            q + 1
                        };
                        assert(servers@[p] == old(servers)@[p0]);
                        assert(servers@[q] == old(servers)@[q0]);
                    }
                }
            }
            return Ok(());
        }
        i = i + 1;
    }
    proof {
        assert(forall|k: int| !server_named_at(servers@, server.name@, k));
    }
    Err(Error::NotFound)
}

/// The predicate that keeps every record not carrying the given name.
pub open spec fn not_named(name: Seq<char>) -> spec_fn(Server) -> bool {
    |s: Server| s.name@ != name
}

/// `b` is `a` with the name replaced and every other field kept.
pub open spec fn same_but_name(a: Server, b: Server, name: Seq<char>) -> bool {
    b.name@ == name && b.path == a.path && b.version == a.version && b.flavor == a.flavor
        && b.banned_ips == a.banned_ips && b.banned_players == a.banned_players && b.eula == a.eula
        && b.whitelist == a.whitelist && b.ops == a.ops && b.permissions == a.permissions
        && b.server_properties == a.server_properties
}

/// Keeping only the records not carrying a name preserves uniqueness, and
/// keeps only records of the original registry.
proof fn lemma_filter_wf(servers: Seq<Server>, name: Seq<char>)
    requires
        registry_wf(servers),
    ensures
        registry_wf(servers.filter(not_named(name))),
        forall|j: int|
            0 <= j < servers.filter(not_named(name)).len() ==> servers.contains(
                #[trigger] servers.filter(not_named(name))[j],
            ),
    decreases servers.len(),
{
    reveal(Seq::filter);
    let flt = servers.filter(not_named(name));
    if servers.len() == 0 {
        assert(flt =~= Seq::<Server>::empty());
    } else {
        let s0 = servers.drop_last();
        let f0 = s0.filter(not_named(name));
        assert(registry_wf(s0)) by {
            assert(forall|i: int| 0 <= i < s0.len() ==> s0[i] == servers[i]);
        }
        lemma_filter_wf(s0, name);
        assert forall|j: int| 0 <= j < f0.len() implies servers.contains(#[trigger] f0[j]) by {
            assert(s0.contains(f0[j]));
            let i = choose|i: int| 0 <= i < s0.len() && s0[i] == f0[j];
            assert(servers[i] == f0[j]);
        }
        if not_named(name)(servers.last()) {
            assert(flt == f0.push(servers.last()));
            assert forall|p: int, q: int|
                0 <= p < q < flt.len() implies #[trigger] flt[p].name@ != #[trigger] flt[q].name@
                by {
                if q == flt.len() - 1 {
                    assert(servers.contains(f0[p]));
                    let i = choose|i: int| 0 <= i < servers.len() && servers[i] == f0[p];
                    if i < servers.len() - 1 {
                        assert(servers[i].name@ != servers[servers.len() - 1].name@);
                    }
                }
            }
            assert forall|j: int| 0 <= j < flt.len() implies servers.contains(
                #[trigger] flt[j],
            ) by {
                if j == flt.len() - 1 {
                    assert(flt[j] == servers[servers.len() - 1]);
                }
            }
        } else {
            assert(flt == f0);
        }
    }
}

/// Replaces the record with the given name: every record carrying the name
/// is removed (under the registry invariant there is at most one), and the
/// new record is appended. A missing name is not an error: the record is
/// then simply appended, which is how a fresh commit happens. A record that
/// keeps its own name keeps the registry's names unique.
pub fn update_server_by_name(servers: &mut Vec<Server>, name: &String, server: &Server) -> (r:
    Result<(), Error>)
    ensures
        r is Ok,
        final(servers)@ == old(servers)@.filter(not_named(name@)) + seq![*server],
        registry_wf(old(servers)@) && server.name@ == name@ ==> registry_wf(final(servers)@),
{
    let mut kept: Vec<Server> = Vec::new();
    let mut i: usize = 0;
    while i < servers.len()
        invariant
            i <= servers@.len(),
            servers@ == old(servers)@,
            kept@ == old(servers)@.subrange(0, i as int).filter(not_named(name@)),
        decreases servers@.len() - i,
    {
        proof {
            assert(old(servers)@.subrange(0, i + 1).drop_last() =~= old(servers)@.subrange(
                0,
                i as int,
            ));
            reveal_with_fuel(Seq::filter, 2);
        }
        if servers[i].name != *name {
            let s = servers[i].clone();
            kept.push(s);
        }
        i = i + 1;
    }
    kept.push(server.clone());
    proof {
        assert(old(servers)@.subrange(0, old(servers)@.len() as int) =~= old(servers)@);
    }
    *servers = kept;
    proof {
        if registry_wf(old(servers)@) && server.name@ == name@ {
            lemma_filter_wf(old(servers)@, name@);
            let flt = old(servers)@.filter(not_named(name@));
            assert forall|p: int, q: int|
                0 <= p < q < servers@.len() implies #[trigger] servers@[p].name@
                != #[trigger] servers@[q].name@ by {
                if q == servers@.len() - 1 {
                    old(servers)@.lemma_filter_pred(not_named(name@), p);
                    assert(servers@[p] == flt[p]);
                } else {
                    assert(servers@[p] == flt[p] && servers@[q] == flt[q]);
                }
            }
        }
    }
    Ok(())
}

/// Validates a rename: the old name must exist, the new name must be free.
/// Returns the live directory's old and new paths; the filesystem move
/// happens between this and `rename_commit`.
pub fn rename_plan(servers: &Vec<Server>, name: &String, new_name: &String) -> (r: Result<
    (String, String),
    Error,
>)
    ensures
        match r {
            Ok(paths) => has_server(servers@, name@) && !has_server(servers@, new_name@)
                && exists|i: int|
                #[trigger] server_named_at(servers@, name@, i) && no_server_before(
                    servers@,
                    name@,
                    i,
                ) && paths.0@ == spec_path_join(servers@[i].path@, name@) && paths.1@
                    == spec_path_join(servers@[i].path@, new_name@),
            Err(e) => (e == Error::NotFound && !has_server(servers@, name@)) || (e
                == Error::NameCollision && has_server(servers@, name@) && has_server(
                servers@,
                new_name@,
            )),
        },
{
    let server = match Server::load_by_name(servers, name) {
        Ok(s) => s,
        Err(e) => {
            return Err(e);
        },
    };
    if does_server_exist(servers, new_name) {
        return Err(Error::NameCollision);
    }
    let from = path_join(server.path.as_str(), name.as_str());
    let to = path_join(server.path.as_str(), new_name.as_str());
    Ok((from, to))
}

/// Commits a rename to the registry: the first record carrying the old name
/// is removed and re-appended under the new name, all other fields kept.
/// Fails with `NotFound` when the old name is absent and `NameCollision`
/// when the new name is taken, leaving the registry untouched either way.
pub fn rename_commit(servers: &mut Vec<Server>, name: &String, new_name: &String) -> (r: Result<
    (),
    Error,
>)
    ensures
        match r {
            Ok(_) => !has_server(old(servers)@, new_name@) && exists|i: int|
                #[trigger] server_named_at(old(servers)@, name@, i) && no_server_before(
                    old(servers)@,
                    name@,
                    i,
                ) && final(servers)@.len() == old(servers)@.len() && final(servers)@ == old(
                    servers,
                )@.remove(i).push(final(servers)@.last()) && same_but_name(
                    old(servers)@[i],
                    final(servers)@.last(),
                    new_name@,
                ),
            Err(e) => final(servers)@ == old(servers)@ && ((e == Error::NotFound && !has_server(
                old(servers)@,
                name@,
            )) || (e == Error::NameCollision && has_server(old(servers)@, new_name@))),
        },
        registry_wf(old(servers)@) ==> registry_wf(final(servers)@),
{
    let server = match Server::load_by_name(servers, name) {
        Ok(s) => s,
        Err(e) => {
            return Err(e);
        },
    };
    if does_server_exist(servers, new_name) {
        return Err(Error::NameCollision);
    }
    let mut renamed = server.clone();
    renamed.name = new_name.clone();
    match remove_server_from_list(servers, &server) {
        Ok(_) => {},
        Err(_) => {
            return Err(Error::NotFound);
        },
    }
    let ghost removed = servers@;
    servers.push(renamed);
    proof {
        if registry_wf(old(servers)@) {
            assert forall|p: int, q: int|
                0 <= p < q < servers@.len() implies #[trigger] servers@[p].name@
                != #[trigger] servers@[q].name@ by {
                if q == servers@.len() - 1 {
                    if servers@[p].name@ == new_name@ {
                        let i = choose|i: int|
                            #[trigger] server_named_at(old(servers)@, server.name@, i)
                                && no_server_before(old(servers)@, server.name@, i) && removed
                                == old(servers)@.remove(i);
                        let p0 = if p < i {
                            p
                        } else {
                            p + 1
                        };
                        assert(servers@[p] == old(servers)@[p0]);
                        assert(server_named_at(old(servers)@, new_name@, p0));
                    }
                } else {
                    assert(servers@[p] == removed[p] && servers@[q] == removed[q]);
                    assert(removed[p].name@ != removed[q].name@);
                }
            }
        }
    }
    Ok(())
}

/// Commits a copy to the registry: a duplicate of the first record carrying
/// the old name is appended under the new name, all other fields kept. Fails
/// with `NotFound` when the old name is absent and `NameCollision` when the
/// new name is taken, leaving the registry untouched either way.
pub fn copy_commit(servers: &mut Vec<Server>, name: &String, new_name: &String) -> (r: Result<
    (),
    Error,
>)
    ensures
        match r {
            Ok(_) => !has_server(old(servers)@, new_name@) && exists|i: int|
                #[trigger] server_named_at(old(servers)@, name@, i) && no_server_before(
                    old(servers)@,
                    name@,
                    i,
                ) && final(servers)@ == old(servers)@.push(final(servers)@.last())
                    && same_but_name(old(servers)@[i], final(servers)@.last(), new_name@),
            Err(e) => final(servers)@ == old(servers)@ && ((e == Error::NotFound && !has_server(
                old(servers)@,
                name@,
            )) || (e == Error::NameCollision && has_server(old(servers)@, new_name@))),
        },
        registry_wf(old(servers)@) ==> registry_wf(final(servers)@),
{
    let server = match Server::load_by_name(servers, name) {
        Ok(s) => s,
        Err(e) => {
            return Err(e);
        },
    };
    if does_server_exist(servers, new_name) {
        return Err(Error::NameCollision);
    }
    let mut duplicate = server.clone();
    duplicate.name = new_name.clone();
    match add_server_to_list(servers, &duplicate) {
        Ok(_) => Ok(()),
        Err(_) => Err(Error::NameCollision),
    }
}

/// Some record claims the root path.
pub open spec fn has_path(servers: Seq<Server>, path: Seq<char>) -> bool {
    exists|i: int| 0 <= i < servers.len() && #[trigger] servers[i].path@ == path
}

/// Whether a record with the given root path exists.
fn does_path_exist(servers: &Vec<Server>, path: &String) -> (r: bool)
    ensures
        r == has_path(servers@, path@),
{
    let mut i: usize = 0;
    while i < servers.len()
        invariant
            i <= servers@.len(),
            forall|j: int| 0 <= j < i ==> #[trigger] servers@[j].path@ != path@,
        decreases servers@.len() - i,
    {
        if servers[i].path == *path {
            return true;
        }
        i = i + 1;
    }
    false
}

/// Validates a move: the name must exist and no record may already claim the
/// new root path. Returns the live directory's old and new paths; the
/// filesystem move happens between this and `move_commit`.
pub fn move_plan(servers: &Vec<Server>, name: &String, new_path: &String) -> (r: Result<
    (String, String),
    Error,
>)
    ensures
        match r {
            Ok(paths) => has_server(servers@, name@) && !has_path(servers@, new_path@)
                && exists|i: int|
                #[trigger] server_named_at(servers@, name@, i) && no_server_before(
                    servers@,
                    name@,
                    i,
                ) && paths.0@ == spec_path_join(servers@[i].path@, name@) && paths.1@
                    == spec_path_join(new_path@, name@),
            Err(e) => (e == Error::NotFound && !has_server(servers@, name@)) || (e
                == Error::NameCollision && has_server(servers@, name@) && has_path(
                servers@,
                new_path@,
            )),
        },
{
    let server = match Server::load_by_name(servers, name) {
        Ok(s) => s,
        Err(e) => {
            return Err(e);
        },
    };
    if does_path_exist(servers, new_path) {
        return Err(Error::NameCollision);
    }
    let from = path_join(server.path.as_str(), name.as_str());
    let to = path_join(new_path.as_str(), name.as_str());
    Ok((from, to))
}

/// `b` is `a` with the root path replaced and every other field kept.
pub open spec fn same_but_path(a: Server, b: Server, path: Seq<char>) -> bool {
    b.path@ == path && b.name == a.name && b.version == a.version && b.flavor == a.flavor
        && b.banned_ips == a.banned_ips && b.banned_players == a.banned_players && b.eula == a.eula
        && b.whitelist == a.whitelist && b.ops == a.ops && b.permissions == a.permissions
        && b.server_properties == a.server_properties
}

/// Commits a move to the registry: the first record carrying the name is
/// removed and re-appended with the new root path, all other fields kept.
/// Fails with `NotFound` when the name is absent, leaving the registry
/// untouched.
pub fn move_commit(servers: &mut Vec<Server>, name: &String, new_path: &String) -> (r: Result<
    (),
    Error,
>)
    ensures
        match r {
            Ok(_) => exists|i: int|
                #[trigger] server_named_at(old(servers)@, name@, i) && no_server_before(
                    old(servers)@,
                    name@,
                    i,
                ) && final(servers)@ == old(servers)@.remove(i).push(final(servers)@.last())
                    && same_but_path(old(servers)@[i], final(servers)@.last(), new_path@),
            Err(e) => e == Error::NotFound && !has_server(old(servers)@, name@)
                && final(servers)@ == old(servers)@,
        },
        registry_wf(old(servers)@) ==> registry_wf(final(servers)@),
{
    let server = match Server::load_by_name(servers, name) {
        Ok(s) => s,
        Err(e) => {
            return Err(e);
        },
    };
    let mut moved = server.clone();
    moved.path = new_path.clone();
    match remove_server_from_list(servers, &server) {
        Ok(_) => {},
        Err(_) => {
            return Err(Error::NotFound);
        },
    }
    let ghost removed = servers@;
    servers.push(moved);
    proof {
        if registry_wf(old(servers)@) {
            let i = choose|i: int|
                #[trigger] server_named_at(old(servers)@, server.name@, i) && no_server_before(
                    old(servers)@,
                    server.name@,
                    i,
                ) && removed == old(servers)@.remove(i);
            lemma_remove_then_find(old(servers)@, server.name@, i);
            assert forall|p: int, q: int|
                0 <= p < q < servers@.len() implies #[trigger] servers@[p].name@
                != #[trigger] servers@[q].name@ by {
                if q == servers@.len() - 1 {
                    if servers@[p].name@ == server.name@ {
                        assert(server_named_at(removed, server.name@, p));
                    }
                } else {
                    assert(servers@[p] == removed[p] && servers@[q] == removed[q]);
                    assert(removed[p].name@ != removed[q].name@);
                }
            }
        }
    }
    Ok(())
}

/// The line printed for one record: just the name, or, in the detailed
/// form, `"{name}: {path} ({version})"`.
pub open spec fn spec_list_line(s: Server, detailed: bool) -> Seq<char> {
    if detailed {
        s.name@ + ": "@ + s.path@ + " ("@ + s.version@ + ")"@
    } else {
        s.name@
    }
}

/// Renders one line per record, in registry order.
pub fn list_servers(servers: &Vec<Server>, detailed: bool) -> (r: Vec<String>)
    ensures
        r@.len() == servers@.len(),
        forall|i: int|
            0 <= i < servers@.len() ==> r@[i]@ == spec_list_line(#[trigger] servers@[i], detailed),
{
    let mut r: Vec<String> = Vec::new();
    let mut i: usize = 0;
    while i < servers.len()
        invariant
            i <= servers@.len(),
            r@.len() == i,
            forall|j: int|
                0 <= j < i ==> r@[j]@ == spec_list_line(#[trigger] servers@[j], detailed),
        decreases servers@.len() - i,
    {
        let s = &servers[i];
        let line: String = if detailed {
            s.name.clone().concat(": ").concat(s.path.as_str()).concat(" (").concat(
                s.version.as_str(),
            ).concat(")")
        } else {
            s.name.clone()
        };
        r.push(line);
        i = i + 1;
    }
    r
}

/// After a record with a fresh name is appended, lookup by that name finds
/// exactly the appended record.
pub proof fn lemma_add_then_find(servers: Seq<Server>, server: Server)
    requires
        !has_server(servers, server.name@),
    ensures
        server_named_at(servers.push(server), server.name@, servers.len() as int),
        no_server_before(servers.push(server), server.name@, servers.len() as int),
        servers.push(server)[servers.len() as int] == server,
        forall|i: int|
            #[trigger] server_named_at(servers.push(server), server.name@, i) && no_server_before(
                servers.push(server),
                server.name@,
                i,
            ) ==> servers.push(server)[i] == server,
{
    let pushed = servers.push(server);
    assert forall|j: int| 0 <= j < servers.len() implies pushed[j].name@ != server.name@ by {
        if pushed[j].name@ == server.name@ {
            assert(server_named_at(servers, server.name@, j));
        }
    }
    assert forall|i: int|
        #[trigger] server_named_at(pushed, server.name@, i) && no_server_before(
            pushed,
            server.name@,
            i,
        ) implies pushed[i] == server by {
        lemma_first_match_unique(pushed, server.name@, i, servers.len() as int);
    }
}

/// After the record carrying a name is removed from a well-formed registry,
/// lookup by that name fails.
pub proof fn lemma_remove_then_find(servers: Seq<Server>, name: Seq<char>, i: int)
    requires
        registry_wf(servers),
        server_named_at(servers, name, i),
    ensures
        !has_server(servers.remove(i), name),
{
    let removed = servers.remove(i);
    assert forall|j: int| 0 <= j < removed.len() implies removed[j].name@ != name by {
        let j0 = if j < i {
            j
        } else {
            j + 1
        };
        assert(removed[j] == servers[j0]);
        assert(servers[j0].name@ != servers[i].name@);
    }
    if has_server(removed, name) {
        let w = choose|w: int| server_named_at(removed, name, w);
        assert(removed[w].name@ != name);
    }
}

} // verus!

//! Updating instances: replacing an instance's artifact version while
//! preserving everything else about it.
//!
//! A single update finds the record, refuses a no-op (the instance already
//! at the target version and flavor), verifies the downloaded body, and
//! commits the new version and flavor to the registry. The bulk update runs
//! the same step over many instances and is the one place failures are
//! isolated: a failed instance is reported in its slot of the result list
//! and the remaining instances are still processed.

use vstd::prelude::*;

use crate::errors::{Error, IntegrityKind};
use crate::fetch::{check_artifact, spec_hash_ok, spec_size_ok, ExpectedHash};
use crate::server::{
    has_server, lemma_first_match_unique, lemma_remove_then_find, no_server_before, registry_wf,
    remove_server_from_list, server_named_at, Server,
};

verus! {

/// Everything one instance's update needs: the target version and flavor,
/// the downloaded body, and the integrity data its resolver published.
#[derive(Debug)]
pub struct UpdateRequest {
    pub name: String,
    pub version_string: String,
    pub flavor: String,
    pub body: Vec<u8>,
    pub expected_size: Option<u64>,
    pub expected_hash: Option<ExpectedHash>,
}

/// Refuses an update that would be a no-op: the instance is already at the
/// target version and flavor, so nothing needs to be downloaded.
pub fn update_plan(server: &Server, version_string: &String, target_flavor: &String) -> (r: Result<
    (),
    Error,
>)
    ensures
        r is Ok <==> !(server.version@ == version_string@ && server.flavor@ == target_flavor@),
        r is Err ==> r == Err::<(), Error>(Error::AlreadyCurrent),
{
    if server.version == *version_string && server.flavor == *target_flavor {
        Err(Error::AlreadyCurrent)
    } else {
        Ok(())
    }
}

/// The position of the first record carrying the name.
pub open spec fn first_server_index(servers: Seq<Server>, name: Seq<char>) -> int {
    choose|i: int|
        #[trigger] server_named_at(servers, name, i) && no_server_before(servers, name, i)
}

/// A record with the version and flavor replaced and every other field kept.
pub open spec fn spec_updated_record(s: Server, version: String, flavor: String) -> Server {
    Server {
        name: s.name,
        path: s.path,
        version: version,
        flavor: flavor,
        banned_ips: s.banned_ips,
        banned_players: s.banned_players,
        eula: s.eula,
        whitelist: s.whitelist,
        ops: s.ops,
        permissions: s.permissions,
        server_properties: s.server_properties,
    }
}

/// What one update reports: the missing record, the no-op, the failed
/// integrity check — in that order — or success.
pub open spec fn spec_update_result(servers: Seq<Server>, req: UpdateRequest) -> Result<
    (),
    Error,
> {
    if !has_server(servers, req.name@) {
        Err(Error::NotFound)
    } else {
        let s = servers[first_server_index(servers, req.name@)];
        if s.version@ == req.version_string@ && s.flavor@ == req.flavor@ {
            Err(Error::AlreadyCurrent)
        } else if !spec_size_ok(req.body@.len(), req.expected_size) {
            Err(Error::IntegrityMismatch(IntegrityKind::Size))
        } else if !spec_hash_ok(req.body@, req.expected_hash) {
            Err(Error::IntegrityMismatch(IntegrityKind::Digest))
        } else {
            Ok(())
        }
    }
}

/// The registry after one update: on success the first record carrying the
/// name is removed and re-appended with the new version and flavor; on any
/// failure the registry is untouched.
pub open spec fn spec_apply_update(servers: Seq<Server>, req: UpdateRequest) -> Seq<Server> {
    if spec_update_result(servers, req) is Ok {
        let i = first_server_index(servers, req.name@);
        servers.remove(i).push(spec_updated_record(servers[i], req.version_string, req.flavor))
    } else {
        servers
    }
}

/// Updates one instance's registry record, given the downloaded body: the
/// record must exist, the update must not be a no-op, and the body must pass
/// the integrity checks; only then is the new version committed. On any
/// failure the registry is untouched.
pub fn update_server(servers: &mut Vec<Server>, request: &UpdateRequest) -> (r: Result<(), Error>)
    ensures
        r == spec_update_result(old(servers)@, *request),
        final(servers)@ == spec_apply_update(old(servers)@, *request),
        registry_wf(old(servers)@) ==> registry_wf(final(servers)@),
{
    let server = match Server::load_by_name(servers, &request.name) {
        Ok(s) => s,
        Err(_) => {
            return Err(Error::NotFound);
        },
    };
    proof {
        let i = choose|i: int|
            #[trigger] server_named_at(old(servers)@, request.name@, i) && no_server_before(
                old(servers)@,
                request.name@,
                i,
            ) && server == old(servers)@[i];
        let fi = first_server_index(old(servers)@, request.name@);
        assert(server_named_at(old(servers)@, request.name@, fi) && no_server_before(
            old(servers)@,
            request.name@,
            fi,
        ));
        lemma_first_match_unique(old(servers)@, request.name@, i, fi);
        assert(old(servers)@[fi] == server);
    }
    if server.version == request.version_string && server.flavor == request.flavor {
        return Err(Error::AlreadyCurrent);
    }
    match check_artifact(&request.body, &request.expected_size, &request.expected_hash) {
        Ok(_) => {},
        Err(e) => {
            return Err(e);
        },
    }
    let mut updated = server.clone();
    updated.version = request.version_string.clone();
    updated.flavor = request.flavor.clone();
    match remove_server_from_list(servers, &server) {
        Ok(_) => {},
        Err(_) => {
            return Err(Error::NotFound);
        },
    }
    proof {
        let i = choose|i: int|
            #[trigger] server_named_at(old(servers)@, request.name@, i) && no_server_before(
                old(servers)@,
                request.name@,
                i,
            ) && servers@ == old(servers)@.remove(i);
        let fi = first_server_index(old(servers)@, request.name@);
        lemma_first_match_unique(old(servers)@, request.name@, i, fi);
        assert(servers@ == old(servers)@.remove(fi));
    }
    let ghost removed = servers@;
    servers.push(updated);
    proof {
        let fi = first_server_index(old(servers)@, request.name@);
        assert(updated == spec_updated_record(
            old(servers)@[fi],
            request.version_string,
            request.flavor,
        ));
        assert(servers@ == spec_apply_update(old(servers)@, *request));
        if registry_wf(old(servers)@) {
            lemma_remove_then_find(old(servers)@, request.name@, fi);
            assert forall|p: int, q: int|
                0 <= p < q < servers@.len() implies #[trigger] servers@[p].name@
                != #[trigger] servers@[q].name@ by {
                if q == servers@.len() - 1 {
                    if servers@[p].name@ == request.name@ {
                        assert(server_named_at(removed, request.name@, p));
                    }
                } else {
                    let p0 = if p < fi {
                        p
                    } else {
                        p + 1
                    };
                    let q0 = if q < fi {
                        q
                    } else {
                        q + 1
                    };
                    assert(servers@[p] == old(servers)@[p0]);
                    assert(servers@[q] == old(servers)@[q0]);
                }
            }
        }
    }
    Ok(())
}

/// The registry after a whole batch, one update at a time, in order.
pub open spec fn spec_apply_all(servers: Seq<Server>, reqs: Seq<UpdateRequest>) -> Seq<Server>
    decreases reqs.len(),
{
    if reqs.len() == 0 {
        servers
    } else {
        spec_apply_all(spec_apply_update(servers, reqs[0]), reqs.drop_first())
    }
}

/// What each update of a batch reports, in order, each judged against the
/// registry as the updates before it left it.
pub open spec fn spec_results_all(servers: Seq<Server>, reqs: Seq<UpdateRequest>) -> Seq<
    Result<(), Error>,
>
    decreases reqs.len(),
{
    if reqs.len() == 0 {
        Seq::empty()
    } else {
        seq![spec_update_result(servers, reqs[0])] + spec_results_all(
            spec_apply_update(servers, reqs[0]),
            reqs.drop_first(),
        )
    }
}

/// Extending a batch by one request applies that request to the state the
/// shorter batch reaches.
proof fn lemma_all_snoc(servers: Seq<Server>, reqs: Seq<UpdateRequest>, k: int)
    requires
        0 <= k < reqs.len(),
    ensures
        spec_apply_all(servers, reqs.subrange(0, k + 1)) == spec_apply_update(
            spec_apply_all(servers, reqs.subrange(0, k)),
            reqs[k],
        ),
        spec_results_all(servers, reqs.subrange(0, k + 1)) == spec_results_all(
            servers,
            reqs.subrange(0, k),
        ).push(spec_update_result(spec_apply_all(servers, reqs.subrange(0, k)), reqs[k])),
    decreases k,
{
    let pre = reqs.subrange(0, k);
    let post = reqs.subrange(0, k + 1);
    assert(post[0] == reqs[0]);
    let s1 = spec_apply_update(servers, post[0]);
    assert(spec_apply_all(servers, post) == spec_apply_all(s1, post.drop_first()));
    assert(spec_results_all(servers, post) == seq![spec_update_result(servers, reqs[0])]
        + spec_results_all(s1, post.drop_first()));
    if k == 0 {
        assert(pre =~= Seq::<UpdateRequest>::empty());
        assert(spec_apply_all(servers, pre) == servers);
        assert(spec_results_all(servers, pre) == Seq::<Result<(), Error>>::empty());
        assert(post.drop_first() =~= Seq::<UpdateRequest>::empty());
        assert(spec_apply_all(s1, post.drop_first()) == s1);
        assert(spec_results_all(s1, post.drop_first()) == Seq::<Result<(), Error>>::empty());
        assert(spec_results_all(servers, post) =~= spec_results_all(servers, pre).push(
            spec_update_result(spec_apply_all(servers, pre), reqs[0]),
        ));
    } else {
        let tail = reqs.drop_first();
        assert(pre[0] == reqs[0]);
        assert(spec_apply_all(servers, pre) == spec_apply_all(s1, pre.drop_first()));
        assert(spec_results_all(servers, pre) == seq![spec_update_result(servers, reqs[0])]
            + spec_results_all(s1, pre.drop_first()));
        assert(post.drop_first() =~= tail.subrange(0, k));
        assert(pre.drop_first() =~= tail.subrange(0, k - 1));
        lemma_all_snoc(s1, tail, k - 1);
        assert(tail[k - 1] == reqs[k]);
        assert(spec_apply_all(servers, post) == spec_apply_update(
            spec_apply_all(servers, pre),
            reqs[k],
        ));
        assert(spec_results_all(servers, post) =~= spec_results_all(servers, pre).push(
            spec_update_result(spec_apply_all(servers, pre), reqs[k]),
        ));
    }
}

/// Updates a batch of instances, one at a time, in order. Failures are
/// isolated: each instance's outcome is reported in its slot of the result
/// list, and a failure on one instance never stops the remaining ones.
pub fn update_all_servers(servers: &mut Vec<Server>, requests: &Vec<UpdateRequest>) -> (results:
    Vec<Result<(), Error>>)
    ensures
        results@.len() == requests@.len(),
        final(servers)@ == spec_apply_all(old(servers)@, requests@),
        results@ == spec_results_all(old(servers)@, requests@),
        registry_wf(old(servers)@) ==> registry_wf(final(servers)@),
{
    let mut results: Vec<Result<(), Error>> = Vec::new();
    let mut k: usize = 0;
    proof {
        assert(requests@.subrange(0, 0) =~= Seq::<UpdateRequest>::empty());
    }
    while k < requests.len()
        invariant
            k <= requests@.len(),
            results@.len() == k,
            servers@ == spec_apply_all(old(servers)@, requests@.subrange(0, k as int)),
            results@ == spec_results_all(old(servers)@, requests@.subrange(0, k as int)),
            registry_wf(old(servers)@) ==> registry_wf(servers@),
        decreases requests@.len() - k,
    {
        let r = update_server(servers, &requests[k]);
        results.push(r);
        proof {
            lemma_all_snoc(old(servers)@, requests@, k as int);
        }
        k = k + 1;
    }
    proof {
        assert(requests@.subrange(0, requests@.len() as int) =~= requests@);
    }
    results
}

} // verus!

//! The Paper backend: the build-list API.
//!
//! The URL is assembled from the requested id directly — the `"latest"`
//! sentinel is not resolved against a separate pointer here; the API itself
//! is queried with the id string. The API returns a list of builds whose
//! first element is treated as the newest.

use vstd::prelude::*;
use vstd::string::*;

use crate::errors::Error;
use crate::fetch::{ExpectedHash, HashAlgorithm, Resolution};
use crate::version::Version;

verus! {

/// One build descriptor from the build-list API: where to download the
/// default server artifact, its byte size, and its SHA-256 digest in hex.
#[derive(Debug)]
pub struct PaperBuild {
    pub url: String,
    pub size: u64,
    pub sha256: String,
}

/// The build-list URL for a requested version id.
pub fn get_paper_version_url(game_version_id: &Version) -> (r: Result<String, String>)
    ensures
        r matches Ok(u) && u@ == "https://fill.papermc.io/v3/projects/paper/versions/"@
            + game_version_id.v_id@ + "/builds"@,
{
    let url = String::from_str("https://fill.papermc.io/v3/projects/paper/versions/").concat(
        game_version_id.v_id.as_str(),
    ).concat("/builds");
    Ok(url)
}

/// Selects the newest build from the API's list — its first element — and
/// turns it into the uniform resolver result: this backend publishes both a
/// size and a SHA-256 digest. An empty list means the requested version has
/// no builds upstream.
pub fn paper_resolution(builds: &Vec<PaperBuild>) -> (r: Result<Resolution, Error>)
    ensures
        match r {
            Ok(res) => builds@.len() > 0 && res.download_url@ == builds@[0].url@
                && res.expected_size == Some(builds@[0].size) && (res.expected_hash matches Some(h)
                && h.algorithm == HashAlgorithm::Sha256 && h.hex_digest@ == builds@[0].sha256@),
            Err(e) => e == Error::VersionNotFound && builds@.len() == 0,
        },
{
    if builds.len() == 0 {
        return Err(Error::VersionNotFound);
    }
    let newest = &builds[0];
    Ok(
        Resolution {
            download_url: newest.url.clone(),
            expected_size: Some(newest.size),
            expected_hash: Some(
                ExpectedHash {
                    algorithm: HashAlgorithm::Sha256,
                    hex_digest: newest.sha256.clone(),
                },
            ),
        },
    )
}

} // verus!

//! The Fabric backend: a URL template, no manifest.
//!
//! The download URL is assembled from the game version id plus a loader
//! version and an installer version; fixed defaults stand in where the
//! caller supplies none. This backend publishes neither a size nor a digest,
//! so integrity verification is skipped for it — a deliberately weaker
//! guarantee than the other backends give.

use vstd::prelude::*;
use vstd::string::*;

use crate::fetch::Resolution;
use crate::version::Version;

verus! {

/// The loader version used when the caller names none.
pub fn get_default_loader_from_game_version() -> (r: Result<String, String>)
    ensures
        r matches Ok(v) && v@ == "0.17.3"@,
{
    Ok(String::from_str("0.17.3"))
}

/// The installer version used when the caller names none.
pub fn get_default_installer_from_game_version() -> (r: Result<String, String>)
    ensures
        r matches Ok(v) && v@ == "1.1.0"@,
{
    Ok(String::from_str("1.1.0"))
}

/// The loader version that will be used: the caller's, or the default.
pub open spec fn spec_loader_version(given: Option<Seq<char>>) -> Seq<char> {
    match given {
        Some(v) => v,
        None => "0.17.3"@,
    }
}

/// The installer version that will be used: the caller's, or the default.
pub open spec fn spec_installer_version(given: Option<Seq<char>>) -> Seq<char> {
    match given {
        Some(v) => v,
        None => "1.1.0"@,
    }
}

/// The templated download URL for a game version, loader and installer.
pub open spec fn spec_fabric_url(
    game_id: Seq<char>,
    loader: Seq<char>,
    installer: Seq<char>,
) -> Seq<char> {
    "https://meta.fabricmc.net/v2/versions/loader/"@ + game_id + "/"@ + loader + "/"@ + installer
        + "/server/jar"@
}

/// Assembles the download URL for a Fabric server artifact.
pub fn get_fabric_version_url(
    game_version_id: &Version,
    fabric_loader_version: Option<&String>,
    fabric_installer_version: Option<&String>,
) -> (r: Result<String, String>)
    ensures
        r matches Ok(u) && u@ == spec_fabric_url(
            game_version_id.v_id@,
            spec_loader_version(
                match fabric_loader_version {
                    Some(v) => Some(v@),
                    None => None,
                },
            ),
            spec_installer_version(
                match fabric_installer_version {
                    Some(v) => Some(v@),
                    None => None,
                },
            ),
        ),
{
    let loader_version: String = match fabric_loader_version {
        Some(version) => version.clone(),
        None => match get_default_loader_from_game_version() {
            Ok(v) => v,
            Err(e) => {
                return Err(e);
            },
        },
    };
    let installer_version: String = match fabric_installer_version {
        Some(version) => version.clone(),
        None => match get_default_installer_from_game_version() {
            Ok(v) => v,
            Err(e) => {
                return Err(e);
            },
        },
    };
    let url = String::from_str("https://meta.fabricmc.net/v2/versions/loader/").concat(
        game_version_id.v_id.as_str(),
    ).concat("/").concat(loader_version.as_str()).concat("/").concat(
        installer_version.as_str(),
    ).concat("/server/jar");
    Ok(url)
}

/// The uniform resolver result for this backend: only a URL; no expected
/// size, no expected digest.
pub fn fabric_resolution(download_url: String) -> (r: Resolution)
    ensures
        r.download_url == download_url,
        r.expected_size is None,
        r.expected_hash is None,
{
    Resolution { download_url, expected_size: None, expected_hash: None }
}

} // verus!

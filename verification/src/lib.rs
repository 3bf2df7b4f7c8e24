//! Core logic of a manager for local instances of a third-party server
//! application: version-spec parsing, backend version resolution, artifact
//! integrity verification, the instance registry, and the backup store.

use vstd::prelude::*;

pub mod backup;
pub mod errors;
pub mod fabric;
pub mod fetch;
pub mod memory;
pub mod paper;
pub mod server;
pub mod text;
pub mod update;
pub mod version;
pub mod world;

verus! {

/// Whether an instance should run with its output suppressed; leaving the
/// choice blank means "no".
pub fn runtime_quiet_coerced(quiet: Option<bool>) -> (r: bool)
    ensures
        r == (quiet == Some(true)),
{
    match quiet {
        Some(true) => true,
        _ => false,
    }
}

} // verus!

//! Version specifications and manifest-driven resolution.
//!
//! A version spec is a `(kind, id)` pair written canonically as
//! `"{kind}-{id}"`. Parsing is deliberately lenient: the kind is `Snapshot`
//! exactly when the string contains the substring `"snapshot"`, and the id is
//! everything after the last `-`, or the whole string when there is none.

use vstd::prelude::*;
use vstd::string::*;

use crate::errors::Error;
use crate::fetch::{ExpectedHash, HashAlgorithm, Resolution};
use crate::text::{
    chars_of, contains_chars, contains_seq, is_last_index_of, last_index_of, matches_at,
    string_from_chars,
};

verus! {

/// Whether a version names a full release or a development snapshot.
#[derive(Clone, Copy, Debug, PartialEq, Eq, Structural)]
pub enum VersionType {
    Snapshot,
    Release,
}

/// A requested version: an id (possibly the sentinel `"latest"`) and a kind.
#[derive(Debug)]
pub struct Version {
    pub v_id: String,
    pub v_type: VersionType,
}

/// The canonical string for a version kind.
pub open spec fn kind_seq(t: VersionType) -> Seq<char> {
    match t {
        VersionType::Snapshot => "snapshot"@,
        VersionType::Release => "release"@,
    }
}

/// The canonical rendering `"{kind}-{id}"` of a version.
pub open spec fn spec_version_string(t: VersionType, id: Seq<char>) -> Seq<char> {
    kind_seq(t) + seq!['-'] + id
}

/// The kind that parsing reads out of a version string.
pub open spec fn spec_version_kind(s: Seq<char>) -> VersionType {
    if contains_seq(s, "snapshot"@) {
        VersionType::Snapshot
    } else {
        VersionType::Release
    }
}

/// The id that parsing reads out of a version string: everything after the
/// last `-`, or the whole string when there is none.
pub open spec fn spec_version_id(s: Seq<char>) -> Seq<char> {
    if exists|i: int| is_last_index_of(s, '-', i) {
        let i = choose|i: int| is_last_index_of(s, '-', i);
        s.subrange(i + 1, s.len() as int)
    } else {
        s
    }
}

/// Two last-occurrence positions of the same character coincide.
proof fn lemma_last_index_unique(s: Seq<char>, c: char, i: int, j: int)
    requires
        is_last_index_of(s, c, i),
        is_last_index_of(s, c, j),
    ensures
        i == j,
{
    if i < j {
        assert(s[j] != c);
    }
    if j < i {
        assert(s[i] != c);
    }
}

impl Clone for Version {
    /// Cloning keeps the value.
    fn clone(&self) -> (r: Self)
        ensures
            r == *self,
    {
        Version { v_id: self.v_id.clone(), v_type: self.v_type }
    }
}

impl Version {
    pub fn new(v_id: String, v_type: VersionType) -> (r: Self)
        ensures
            r.v_id == v_id,
            r.v_type == v_type,
    {
        Version { v_id, v_type }
    }

    /// Parses a user-supplied version string.
    pub fn from_string(version_string: String) -> (r: Self)
        ensures
            r.v_type == spec_version_kind(version_string@),
            r.v_id@ == spec_version_id(version_string@),
    {
        let s = chars_of(version_string.as_str());
        let snapshot = chars_of("snapshot");
        let v_type = if contains_chars(&s, &snapshot) {
            VersionType::Snapshot
        } else {
            VersionType::Release
        };
        let n = s.len();
        match last_index_of(&s, '-') {
            Some(i) => {
                let mut id_chars: Vec<char> = Vec::new();
                let mut j: usize = i + 1;
                while j < n
                    invariant
                        n == s@.len(),
                        i < j <= s@.len(),
                        id_chars@ == s@.subrange(i + 1, j as int),
                    decreases s@.len() - j,
                {
                    id_chars.push(s[j]);
                    proof {
                        assert(s@.subrange(i + 1, j + 1 as int) =~= s@.subrange(
                            i + 1,
                            j as int,
                        ).push(s@[j as int]));
                    }
                    j = j + 1;
                }
                let v_id = string_from_chars(&id_chars);
                proof {
                    let w = choose|w: int| is_last_index_of(version_string@, '-', w);
                    lemma_last_index_unique(version_string@, '-', w, i as int);
                }
                Version { v_id, v_type }
            },
            None => Version { v_id: version_string, v_type },
        }
    }

    /// Renders the canonical string `"{kind}-{id}"`.
    pub fn to_string(&self) -> (r: String)
        ensures
            r@ == spec_version_string(self.v_type, self.v_id@),
    {
        match self.v_type {
            VersionType::Snapshot => {
                let r = String::from_str("snapshot-").concat(self.v_id.as_str());
                proof {
                    reveal_strlit("snapshot-");
                    reveal_strlit("snapshot");
                    assert("snapshot-"@ =~= "snapshot"@ + seq!['-']);
                }
                r
            },
            VersionType::Release => {
                let r = String::from_str("release-").concat(self.v_id.as_str());
                proof {
                    reveal_strlit("release-");
                    reveal_strlit("release");
                    assert("release-"@ =~= "release"@ + seq!['-']);
                }
                r
            },
        }
    }
}

/// No character of either kind string is the separator `-`.
proof fn lemma_kind_chars_not_dash(t: VersionType)
    ensures
        forall|j: int| 0 <= j < kind_seq(t).len() ==> kind_seq(t)[j] != '-',
        kind_seq(t).len() >= 7,
{
    reveal_strlit("snapshot");
    reveal_strlit("release");
    match t {
        VersionType::Snapshot => {
            assert(forall|j: int| 0 <= j < 8 ==> "snapshot"@[j] != '-') by {
                assert("snapshot"@[0] == 's');
                assert("snapshot"@[1] == 'n');
                assert("snapshot"@[2] == 'a');
                assert("snapshot"@[3] == 'p');
                assert("snapshot"@[4] == 's');
                assert("snapshot"@[5] == 'h');
                assert("snapshot"@[6] == 'o');
                assert("snapshot"@[7] == 't');
            }
        },
        VersionType::Release => {
            assert(forall|j: int| 0 <= j < 7 ==> "release"@[j] != '-') by {
                assert("release"@[0] == 'r');
                assert("release"@[1] == 'e');
                assert("release"@[2] == 'l');
                assert("release"@[3] == 'e');
                assert("release"@[4] == 'a');
                assert("release"@[5] == 's');
                assert("release"@[6] == 'e');
            }
        },
    }
}

/// Parsing a canonical version string recovers its kind and id, as long as
/// the id contains no separator and a release id does not contain the word
/// that marks snapshots.
pub proof fn lemma_version_round_trip(t: VersionType, id: Seq<char>)
    requires
        forall|j: int| 0 <= j < id.len() ==> id[j] != '-',
        t == VersionType::Snapshot || !contains_seq(id, "snapshot"@),
    ensures
        spec_version_kind(spec_version_string(t, id)) == t,
        spec_version_id(spec_version_string(t, id)) == id,
        spec_version_string(
            spec_version_kind(spec_version_string(t, id)),
            spec_version_id(spec_version_string(t, id)),
        ) == spec_version_string(t, id),
{
    let s = spec_version_string(t, id);
    let k = kind_seq(t).len() as int;
    lemma_kind_chars_not_dash(t);
    reveal_strlit("snapshot");
    reveal_strlit("release");

    // The kind is recovered.
    match t {
        VersionType::Snapshot => {
            assert(s.subrange(0, 8) =~= "snapshot"@);
            assert(matches_at(s, "snapshot"@, 0));
        },
        VersionType::Release => {
            assert(!contains_seq(s, "snapshot"@)) by {
                if contains_seq(s, "snapshot"@) {
                    let i = choose|i: int| matches_at(s, "snapshot"@, i);
                    if i <= 7 {
                        // The window would cover the separator at index 7,
                        // but no character of "snapshot" is a dash.
                        assert(s.subrange(i, i + 8)[7 - i] == s[7]);
                        assert(s[7] == '-');
                        assert("snapshot"@[7 - i] != '-') by {
                            lemma_kind_chars_not_dash(VersionType::Snapshot);
                        }
                    } else {
                        // The window lies inside the id.
                        assert(s.subrange(i, i + 8) =~= id.subrange(i - 8, i));
                        assert(id.subrange(i - 8, i) =~= id.subrange(i - 8, i - 8 + 8));
                        assert(matches_at(id, "snapshot"@, i - 8));
                    }
                }
            }
        },
    }

    // The id is recovered: the separator is the last dash.
    assert(s[k] == '-');
    assert(forall|j: int| k < j < s.len() ==> s[j] == id[j - k - 1]);
    assert(is_last_index_of(s, '-', k));
    let w = choose|w: int| is_last_index_of(s, '-', w);
    lemma_last_index_unique(s, '-', w, k);
    assert(s.subrange(k + 1, s.len() as int) =~= id);
}

/// One version the manifest knows: its id and the URL of its metadata.
#[derive(Debug)]
pub struct ManifestEntry {
    pub id: String,
    pub url: String,
}

/// The manifest of all known versions: the two "latest" pointers and the
/// version entries.
#[derive(Debug)]
pub struct VersionManifest {
    pub latest_release: String,
    pub latest_snapshot: String,
    pub versions: Vec<ManifestEntry>,
}

/// What the manifest's "latest" pointer names for a kind.
pub open spec fn spec_latest_id(m: VersionManifest, t: VersionType) -> Seq<char> {
    match t {
        VersionType::Snapshot => m.latest_snapshot@,
        VersionType::Release => m.latest_release@,
    }
}

/// The concrete id a version asks for against a manifest: the "latest"
/// sentinel follows the manifest's pointer for the version's kind.
pub open spec fn spec_target_id(m: VersionManifest, v: Version) -> Seq<char> {
    if v.v_id@ == "latest"@ {
        spec_latest_id(m, v.v_type)
    } else {
        v.v_id@
    }
}

/// No entry before position `k` carries the id.
pub open spec fn no_entry_before(entries: Seq<ManifestEntry>, id: Seq<char>, k: int) -> bool {
    forall|j: int| 0 <= j < k ==> entries[j].id@ != id
}

/// The entry at position `j` carries the id.
pub open spec fn entry_matches(entries: Seq<ManifestEntry>, id: Seq<char>, j: int) -> bool {
    0 <= j < entries.len() && entries[j].id@ == id
}

/// The manifest's "latest" pointer for a kind.
pub fn get_latest_version_id(manifest: &VersionManifest, version_type: VersionType) -> (r: String)
    ensures
        r@ == spec_latest_id(*manifest, version_type),
{
    match version_type {
        VersionType::Snapshot => manifest.latest_snapshot.clone(),
        VersionType::Release => manifest.latest_release.clone(),
    }
}

/// Resolves a version against the manifest: a "latest" id follows the
/// manifest's pointer for the version's kind, any other id is used as given.
/// Returns the metadata URL of the first entry carrying the resolved id, and
/// `VersionNotFound` exactly when no entry carries it.
pub fn resolve_version(manifest: &VersionManifest, version_id: &Version) -> (r: Result<
    String,
    Error,
>)
    ensures
        match r {
            Ok(url) => exists|i: int|
                #[trigger] entry_matches(
                    manifest.versions@,
                    spec_target_id(*manifest, *version_id),
                    i,
                ) && no_entry_before(
                    manifest.versions@,
                    spec_target_id(*manifest, *version_id),
                    i,
                ) && url@ == manifest.versions@[i].url@,
            Err(e) => e == Error::VersionNotFound && no_entry_before(
                manifest.versions@,
                spec_target_id(*manifest, *version_id),
                manifest.versions@.len() as int,
            ),
        },
{
    let target: String = if version_id.v_id == String::from_str("latest") {
        get_latest_version_id(manifest, version_id.v_type)
    } else {
        version_id.v_id.clone()
    };
    let mut i: usize = 0;
    while i < manifest.versions.len()
        invariant
            i <= manifest.versions@.len(),
            target@ == spec_target_id(*manifest, *version_id),
            no_entry_before(manifest.versions@, spec_target_id(*manifest, *version_id), i as int),
        decreases manifest.versions@.len() - i,
    {
        if manifest.versions[i].id == target {
            let url = manifest.versions[i].url.clone();
            proof {
                let wi = i as int;
                assert(entry_matches(
                    manifest.versions@,
                    spec_target_id(*manifest, *version_id),
                    wi,
                ) && no_entry_before(
                    manifest.versions@,
                    spec_target_id(*manifest, *version_id),
                    wi,
                ) && url@ == manifest.versions@[wi].url@);
            }
            return Ok(url);
        }
        i = i + 1;
    }
    Err(Error::VersionNotFound)
}

/// What the per-version metadata publishes for the server artifact: where to
/// download it, its byte size, and its SHA-1 digest in hex.
#[derive(Debug)]
pub struct VersionMetadata {
    pub server_url: String,
    pub size: u64,
    pub sha1: String,
}

/// Turns per-version metadata into the uniform resolver result: this backend
/// publishes both a size and a SHA-1 digest.
pub fn vanilla_resolution(meta: &VersionMetadata) -> (r: Resolution)
    ensures
        r.download_url@ == meta.server_url@,
        r.expected_size == Some(meta.size),
        r.expected_hash matches Some(h) && h.algorithm == HashAlgorithm::Sha1 && h.hex_digest@
            == meta.sha1@,
{
    Resolution {
        download_url: meta.server_url.clone(),
        expected_size: Some(meta.size),
        expected_hash: Some(
            ExpectedHash { algorithm: HashAlgorithm::Sha1, hex_digest: meta.sha1.clone() },
        ),
    }
}

/// Renders a version as its canonical resolved string: a "latest" id is
/// replaced by the resolved id the caller obtained from the manifest, any
/// other id stands as it is.
pub fn format_version_string(version: &Version, resolved_latest_id: &String) -> (r: String)
    ensures
        r@ == spec_version_string(
            version.v_type,
            if version.v_id@ == "latest"@ {
                resolved_latest_id@
            } else {
                version.v_id@
            },
        ),
{
    let id: String = if version.v_id == String::from_str("latest") {
        resolved_latest_id.clone()
    } else {
        version.v_id.clone()
    };
    let v = Version { v_id: id, v_type: version.v_type };
    v.to_string()
}

} // verus!

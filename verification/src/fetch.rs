//! Artifact integrity verification.
//!
//! A backend resolver hands back a download URL together with an optional
//! expected byte size and an optional expected digest. Before a downloaded
//! body may be persisted, it must pass both checks; a body that fails either
//! one is rejected with `IntegrityMismatch` and must never reach the final
//! artifact location.

use sha1::Digest;

use vstd::prelude::*;

use crate::errors::{Error, IntegrityKind};
use crate::text::{chars_eq, chars_of, lower_seq, to_lower_chars};

verus! {

/// The digest algorithms the upstream APIs publish.
#[derive(Clone, Copy, Debug, PartialEq, Eq, Structural)]
pub enum HashAlgorithm {
    Sha1,
    Sha256,
}

/// An expected digest: the algorithm and the hex rendering of the digest,
/// compared case-insensitively.
#[derive(Debug)]
pub struct ExpectedHash {
    pub algorithm: HashAlgorithm,
    pub hex_digest: String,
}

/// What a backend resolver produces: where to download from, and the
/// integrity data the backend publishes, where it publishes any.
#[derive(Debug)]
pub struct Resolution {
    pub download_url: String,
    pub expected_size: Option<u64>,
    pub expected_hash: Option<ExpectedHash>,
}

/// The SHA-1 digest of a byte sequence.
pub uninterp spec fn sha1_digest(data: Seq<u8>) -> Seq<u8>;

/// The SHA-256 digest of a byte sequence.
pub uninterp spec fn sha256_digest(data: Seq<u8>) -> Seq<u8>;

/// Relies on `sha1::Sha1` through the RustCrypto `Digest` one-shot API: the
/// 20-byte SHA-1 digest is a function of the input bytes alone.
#[verifier::external_body]
fn sha1_bytes(data: &Vec<u8>) -> (r: Vec<u8>)
    ensures
        r@ == sha1_digest(data@),
        r@.len() == 20,
{
    sha1::Sha1::digest(data.as_slice()).to_vec()
}

/// Relies on `sha2::Sha256` through the RustCrypto `Digest` one-shot API: the
/// 32-byte SHA-256 digest is a function of the input bytes alone.
#[verifier::external_body]
fn sha256_bytes(data: &Vec<u8>) -> (r: Vec<u8>)
    ensures
        r@ == sha256_digest(data@),
        r@.len() == 32,
{
    sha2::Sha256::digest(data.as_slice()).to_vec()
}

/// The digest a given algorithm computes.
pub open spec fn spec_digest(a: HashAlgorithm, data: Seq<u8>) -> Seq<u8> {
    match a {
        HashAlgorithm::Sha1 => sha1_digest(data),
        HashAlgorithm::Sha256 => sha256_digest(data),
    }
}

/// The lowercase hex character for a value below 16.
pub open spec fn hex_char(d: nat) -> char {
    if d < 10 {
        ((48 + d) as char)
    } else {
        ((87 + d) as char)
    }
}

/// The lowercase hex rendering of a byte sequence, two characters per byte.
pub open spec fn hex_of(b: Seq<u8>) -> Seq<char> {
    Seq::new(
        2 * b.len(),
        |i: int|
            if i % 2 == 0 {
                hex_char((b[i / 2] / 16) as nat)
            } else {
                hex_char((b[i / 2] % 16) as nat)
            },
    )
}

/// Renders bytes as lowercase hex.
pub fn hex_lower(b: &Vec<u8>) -> (r: Vec<char>)
    ensures
        r@ == hex_of(b@),
{
    let mut r: Vec<char> = Vec::new();
    let mut i: usize = 0;
    while i < b.len()
        invariant
            i <= b@.len(),
            r@ =~= hex_of(b@).subrange(0, 2 * i as int),
        decreases b@.len() - i,
    {
        let hi = b[i] / 16;
        let lo = b[i] % 16;
        let hc = if hi < 10 {
            (48 + hi) as char
        } else {
            (87 + hi) as char
        };
        let lc = if lo < 10 {
            (48 + lo) as char
        } else {
            (87 + lo) as char
        };
        proof {
            assert(hc == hex_char((b@[i as int] / 16) as nat));
            assert(lc == hex_char((b@[i as int] % 16) as nat));
            assert(hex_of(b@)[2 * i as int] == hc) by {
                assert((2 * i as int) % 2 == 0 && (2 * i as int) / 2 == i as int);
            }
            assert(hex_of(b@)[2 * i as int + 1] == lc) by {
                assert((2 * i as int + 1) % 2 == 1 && (2 * i as int + 1) / 2 == i as int);
            }
        }
        r.push(hc);
        r.push(lc);
        proof {
            assert(r@ =~= hex_of(b@).subrange(0, 2 * (i + 1) as int));
        }
        i = i + 1;
    }
    proof {
        assert(hex_of(b@).subrange(0, 2 * b@.len() as int) =~= hex_of(b@));
    }
    r
}

/// A digest agrees with an expected hex string, compared case-insensitively.
pub open spec fn spec_digest_matches(digest: Seq<u8>, expected_hex: Seq<char>) -> bool {
    lower_seq(expected_hex) == hex_of(digest)
}

/// Whether a computed digest agrees with the expected hex string.
pub fn digest_matches(digest: &Vec<u8>, expected_hex: &str) -> (r: bool)
    ensures
        r == spec_digest_matches(digest@, expected_hex@),
{
    let expected = chars_of(expected_hex);
    let lowered = to_lower_chars(&expected);
    let computed = hex_lower(digest);
    chars_eq(&lowered, &computed)
}

/// The body's length agrees with the expected size, where one is expected.
pub open spec fn spec_size_ok(len: nat, expected: Option<u64>) -> bool {
    match expected {
        Some(n) => len == n,
        None => true,
    }
}

/// The body's digest agrees with the expected digest, where one is expected.
pub open spec fn spec_hash_ok(data: Seq<u8>, expected: Option<ExpectedHash>) -> bool {
    match expected {
        Some(h) => spec_digest_matches(spec_digest(h.algorithm, data), h.hex_digest@),
        None => true,
    }
}

/// Checks a downloaded body against the resolver's integrity data. A size
/// disagreement is reported before the digest is looked at; when neither a
/// size nor a digest is expected, the body passes as it is.
pub fn check_artifact(
    body: &Vec<u8>,
    expected_size: &Option<u64>,
    expected_hash: &Option<ExpectedHash>,
) -> (r: Result<(), Error>)
    ensures
        r is Ok <==> spec_size_ok(body@.len(), *expected_size) && spec_hash_ok(
            body@,
            *expected_hash,
        ),
        !spec_size_ok(body@.len(), *expected_size) ==> r == Err::<(), Error>(
            Error::IntegrityMismatch(IntegrityKind::Size),
        ),
        spec_size_ok(body@.len(), *expected_size) && !spec_hash_ok(body@, *expected_hash) ==> r
            == Err::<(), Error>(Error::IntegrityMismatch(IntegrityKind::Digest)),
{
    if let Some(n) = expected_size {
        if body.len() as u64 != *n {
            return Err(Error::IntegrityMismatch(IntegrityKind::Size));
        }
    }
    if let Some(h) = expected_hash {
        let computed = match h.algorithm {
            HashAlgorithm::Sha1 => sha1_bytes(body),
            HashAlgorithm::Sha256 => sha256_bytes(body),
        };
        if !digest_matches(&computed, h.hex_digest.as_str()) {
            return Err(Error::IntegrityMismatch(IntegrityKind::Digest));
        }
    }
    Ok(())
}

/// Verifies a downloaded body against the resolver's integrity data and
/// returns the body, unchanged, only when every present check passes; a body
/// that fails a check never reaches the caller's persist step.
pub fn verify_artifact(
    body: Vec<u8>,
    expected_size: &Option<u64>,
    expected_hash: &Option<ExpectedHash>,
) -> (r: Result<Vec<u8>, Error>)
    ensures
        r is Ok <==> spec_size_ok(body@.len(), *expected_size) && spec_hash_ok(
            body@,
            *expected_hash,
        ),
        r matches Ok(b) ==> b@ == body@,
        !spec_size_ok(body@.len(), *expected_size) ==> r == Err::<Vec<u8>, Error>(
            Error::IntegrityMismatch(IntegrityKind::Size),
        ),
        spec_size_ok(body@.len(), *expected_size) && !spec_hash_ok(body@, *expected_hash)
            ==> r == Err::<Vec<u8>, Error>(Error::IntegrityMismatch(IntegrityKind::Digest)),
{
    match check_artifact(&body, expected_size, expected_hash) {
        Ok(_) => Ok(body),
        Err(e) => Err(e),
    }
}

/// Whether a verified artifact may be written to a location that may already
/// hold one: an existing artifact is only replaced when the caller asked for
/// that explicitly.
pub fn artifact_write_allowed(already_exists: bool, overwrite_existing: bool) -> (r: bool)
    ensures
        r == (overwrite_existing || !already_exists),
{
    overwrite_existing || !already_exists
}

} // verus!

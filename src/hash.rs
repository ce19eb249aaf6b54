//! Content digests for change detection and password digests for
//! authentication.
use sha2::Digest;
use vstd::prelude::*;
use vstd::utf8::encode_utf8;

verus! {

/// The XXH64 digest of `data` under `seed`.
pub uninterp spec fn xxh64(seed: u64, data: Seq<u8>) -> u64;

/// The SHA-256 digest of `data`.
pub uninterp spec fn sha256_of(data: Seq<u8>) -> Seq<u8>;

/// Relies on `twox_hash::XxHash64::oneshot`: the XXH64 digest of the bytes
/// under the seed, which depends on the two alone.
#[verifier::external_body]
fn xxhash64(seed: u64, data: &[u8]) -> (r: u64)
    ensures
        r == xxh64(seed, data@),
{
    twox_hash::XxHash64::oneshot(seed, data)
}

/// Relies on `sha2::Sha256::digest`: the SHA-256 digest of the bytes.
#[verifier::external_body]
fn sha256(data: &[u8]) -> (r: [u8; 32])
    ensures
        r@ == sha256_of(data@),
{
    sha2::Sha256::digest(data).into()
}

/// The seed of content digests; client and server must agree on it.
pub const CONTENT_SEED: u64 = 4167;

/// The content digest of a file's bytes.
pub open spec fn content_digest(data: Seq<u8>) -> u64 {
    xxh64(CONTENT_SEED, data)
}

/// The digest of a password: SHA-256 of its UTF-8 bytes.
pub open spec fn password_digest(password: Seq<char>) -> Seq<u8> {
    sha256_of(encode_utf8(password))
}

/// Computes content and password digests.
pub struct Hasher;

impl Hasher {
    /// The content digest of a file's bytes.
    pub fn hash_file(contents: &[u8]) -> (r: u64)
        ensures
            r == content_digest(contents@),
    {
        xxhash64(CONTENT_SEED, contents)
    }

    /// The digest of a password, which is what travels instead of it.
    pub fn hash_password(password: &str) -> (r: [u8; 32])
        ensures
            r@ == password_digest(password@),
    {
        sha256(password.as_bytes())
    }
}

/// Byte-for-byte comparison of two digests.
pub fn digests_equal(a: &[u8; 32], b: &[u8; 32]) -> (r: bool)
    ensures
        r == (a@ == b@),
{
    let mut i: usize = 0;
    while i < 32
        invariant
            i <= 32,
            forall|j: int| 0 <= j < i ==> a@[j] == b@[j],
        decreases 32 - i,
    {
        if a[i] != b[i] {
            return false;
        }
        i = i + 1;
    }
    assert(a@ =~= b@);
    true
}

/// Digest determinism: the same bytes hashed twice, under the same seed,
/// give the same content digest.
pub proof fn lemma_content_digest_deterministic(f1: Seq<u8>, f2: Seq<u8>)
    requires
        f1 == f2,
    ensures
        content_digest(f1) == content_digest(f2),
{
}

} // verus!

//! Content and identity digests: SHA-256, written as lowercase hex.
use vstd::prelude::*;
use vstd::utf8::encode_utf8;

verus! {

/// The SHA-256 digest of `data`.
pub uninterp spec fn sha256_of(data: Seq<u8>) -> Seq<u8>;

/// The lowercase hex digit for a value below 16.
pub open spec fn hex_digit(n: int) -> char {
    seq!['0', '1', '2', '3', '4', '5', '6', '7', '8', '9', 'a', 'b', 'c', 'd', 'e', 'f'][n]
}

/// Two lowercase hex digits per byte, high half first.
pub open spec fn hex_of(b: Seq<u8>) -> Seq<char>
    decreases b.len(),
{
    if b.len() == 0 {
        Seq::empty()
    } else {
        seq![hex_digit(b[0] as int / 16), hex_digit(b[0] as int % 16)] + hex_of(b.drop_first())
    }
}

/// The identity of the original file at absolute path `abs_path`: the hex SHA-256
/// of the path's UTF-8 bytes.
pub open spec fn identity_spec(abs_path: Seq<char>) -> Seq<char> {
    hex_of(sha256_of(encode_utf8(abs_path)))
}

/// The checksum of stored content: the hex SHA-256 of its bytes.
pub open spec fn content_digest_spec(data: Seq<u8>) -> Seq<char> {
    hex_of(sha256_of(data))
}

/// Relies on sha2's `Sha256::digest`: the 32-byte SHA-256 digest of the input,
/// which depends on the input alone.
#[verifier::external_body]
fn sha256(data: &[u8]) -> (r: Vec<u8>)
    ensures
        r@ == sha256_of(data@),
        r@.len() == 32,
{
    <sha2::Sha256 as sha2::Digest>::digest(data).to_vec()
}

/// Relies on hex's `encode`: each byte as two lowercase hex digits, high half first.
#[verifier::external_body]
fn hex_encode(data: &[u8]) -> (r: String)
    ensures
        r@ == hex_of(data@),
{
    hex::encode(data)
}

/// The identity digest of an absolute path: the key shared by all backups of that path.
/// The same path always gives the same digest.
pub fn identity_of(abs_path: &str) -> (r: String)
    ensures
        r@ == identity_spec(abs_path@),
{
    let d = sha256(abs_path.as_bytes());
    hex_encode(d.as_slice())
}

/// The checksum of a file's content, as reported after a backup and in a listing.
pub fn content_digest(data: &[u8]) -> (r: String)
    ensures
        r@ == content_digest_spec(data@),
{
    let d = sha256(data);
    hex_encode(d.as_slice())
}

/// Digesting is deterministic: equal paths have equal identities, and equal contents
/// equal checksums.
pub proof fn lemma_identity_stable(p: Seq<char>, q: Seq<char>, c: Seq<u8>, d: Seq<u8>)
    ensures
        p == q ==> identity_spec(p) == identity_spec(q),
        c == d ==> content_digest_spec(c) == content_digest_spec(d),
{
}

} // verus!

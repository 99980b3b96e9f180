//! Content identity: the deterministic, stable identifier derived from an
//! entry's invocation text, used as the key of the vector-store record.
//!
//! The identity is a function of the invocation text alone: the SHA-256
//! digest of the text, truncated to its first sixteen bytes and projected
//! into a version-5 UUID under the OID namespace, so that the result is a
//! valid point identifier for the vector store.  Changing an entry's
//! description while keeping its invocation fixed keeps the identity.

use sha2::Digest;
use vstd::prelude::*;

verus! {

/// The SHA-256 digest (32 bytes) of the UTF-8 encoding of a text.
pub uninterp spec fn sha256_utf8(s: Seq<char>) -> Seq<u8>;

/// The hyphenated, lower-case text (36 characters) of the version-5 UUID
/// derived from a byte sequence under the OID namespace.
pub uninterp spec fn uuid_v5_oid(name: Seq<u8>) -> Seq<char>;

/// The stable content identity of an invocation text.
pub open spec fn identity_of(s: Seq<char>) -> Seq<char> {
    uuid_v5_oid(sha256_utf8(s).subrange(0, 16))
}

/// Relies on sha2's `Sha256` through `Digest::digest`: a 32-byte digest
/// determined by the input bytes alone, stable across processes and
/// machines.
#[verifier::external_body]
fn sha256_of_text(input: &str) -> (r: Vec<u8>)
    ensures
        r@ == sha256_utf8(input@),
        r@.len() == 32,
{
    sha2::Sha256::digest(input.as_bytes()).to_vec()
}

/// Relies on uuid's `Uuid::new_v5`: a UUID determined by the namespace and
/// the name bytes alone (RFC 9562 name-based generation), and on `Uuid`'s
/// `Debug` form, the 36-character hyphenated lower-case text.
#[verifier::external_body]
fn uuid_v5_oid_text(name: &[u8]) -> (r: String)
    ensures
        r@ == uuid_v5_oid(name@),
        r@.len() == 36,
{
    format!("{:?}", uuid::Uuid::new_v5(&uuid::Uuid::NAMESPACE_OID, name))
}

/// The content identity of an invocation text.
///
/// Same text, same identity, in every process and on every machine: the
/// result is a pure function of `input`.
pub fn uuid_hash(input: &str) -> (r: String)
    ensures
        r@ == identity_of(input@),
        r@.len() == 36,
{
    let digest: Vec<u8> = sha256_of_text(input);
    let head: &[u8] = vstd::slice::slice_subrange(digest.as_slice(), 0, 16);
    uuid_v5_oid_text(head)
}

} // verus!

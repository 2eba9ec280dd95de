//! Content hashing with BLAKE3.

use vstd::prelude::*;

verus! {

/// The state of an incremental BLAKE3 hash: `blake3::Hasher`.
#[verifier::external_type_specification]
#[verifier::external_body]
pub struct ExHasher(blake3::Hasher);

/// The bytes that a hasher has taken in, in order.
pub uninterp spec fn hasher_input(hasher: blake3::Hasher) -> Seq<u8>;

/// The BLAKE3 hash of some bytes, in lower-case hexadecimal.
pub uninterp spec fn content_digest(bytes: Seq<u8>) -> Seq<char>;

/// Calls `blake3::Hasher::new`: the hasher has taken in nothing.
#[verifier::external_body]
pub(crate) fn new_hasher() -> (r: blake3::Hasher)
    ensures
        hasher_input(r) == Seq::<u8>::empty(),
{
    blake3::Hasher::new()
}

/// Calls `blake3::Hasher::update`: the bytes are taken in after those before them.
#[verifier::external_body]
pub(crate) fn take_in(hasher: &mut blake3::Hasher, bytes: &[u8])
    ensures
        hasher_input(*final(hasher)) == hasher_input(*old(hasher)) + bytes@,
{
    hasher.update(bytes);
}

/// Calls `blake3::Hasher::finalize` and writes the hash out with `blake3::Hash::to_hex`: the
/// result is the digest of the bytes that the hasher has taken in, however they were split.
#[verifier::external_body]
pub(crate) fn digest_text(hasher: &blake3::Hasher) -> (r: String)
    ensures
        r@ == content_digest(hasher_input(*hasher)),
{
    hasher.finalize().to_hex().to_string()
}

} // verus!

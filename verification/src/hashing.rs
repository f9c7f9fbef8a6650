use vstd::prelude::*;

verus! {

/// The 256-bit digest of a byte sequence, as the hash function computes it.
/// The result depends on the input bytes alone; nothing more is assumed of it.
pub uninterp spec fn blake3_of(data: Seq<u8>) -> Seq<u8>;

/// Relies on blake3::hash: a deterministic function of the input bytes,
/// returning a 32-byte digest.
#[verifier::external_body]
pub(crate) fn blake3_digest(data: &[u8]) -> (digest: Vec<u8>)
    ensures
        digest@ == blake3_of(data@),
        digest@.len() == 32,
{
    blake3::hash(data).as_bytes().to_vec()
}

} // verus!

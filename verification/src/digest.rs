//! 256-bit digests and the hash function that produces them.

use vstd::prelude::*;

verus! {

/// A 256-bit digest.
pub type Digest = [u8; 32];

/// The keccak-256 digest of a byte string, as a sequence of 32 bytes.
pub uninterp spec fn keccak256_of(data: Seq<u8>) -> Seq<u8>;

/// Calls `tiny_keccak::keccak256`. The contract names the digest: it is a
/// function of the input bytes alone. That it is 32 bytes long is the
/// function's return type. Nothing else about keccak-256 is claimed.
#[verifier::external_body]
pub(crate) fn keccak256(data: &[u8]) -> (out: Digest)
    ensures
        out@ == keccak256_of(data@),
{
    tiny_keccak::keccak256(data)
}

/// Whether two digests hold the same bytes.
pub fn digest_eq(a: &Digest, b: &Digest) -> (same: bool)
    ensures
        same == (*a == *b),
        same == (a@ == b@),
{
    let mut i: usize = 0;
    while i < 32
        invariant
            i <= 32,
            forall|k: int| 0 <= k < i ==> a[k] == b[k],
        decreases 32 - i,
    {
        if a[i] != b[i] {
            assert(a@[i as int] != b@[i as int]);
            return false;
        }
        i += 1;
    }
    assert(a@ =~= b@);
    assert(*a =~= *b);
    true
}

} // verus!

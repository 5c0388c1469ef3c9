//! The Tiger hash function.

use tiger::Digest;
use vstd::prelude::*;

verus! {

/// The 192-bit Tiger digest of a byte string.
pub uninterp spec fn tiger192(data: Seq<u8>) -> Seq<u8>;

/// `tiger::Tiger::digest`, which hashes a whole byte string at once.
///
/// Claimed of the result: it is the digest of the bytes, and depends on nothing
/// else. Inputs whose length in bits does not fit in 64 bits are left out: the
/// crate's count of them overflows.
#[verifier::external_body]
pub(crate) fn tiger_digest(data: &[u8]) -> (sum: [u8; 24])
    requires
        data@.len() < 0x2000_0000_0000_0000,
    ensures
        sum@ == tiger192(data@),
{
    tiger::Tiger::digest(data).into()
}

} // verus!

//! Hashing helpers over serialized data.
use vstd::prelude::*;

use crate::codec::{hex_lower, to_hex};
use crate::hashing::{sha3_256, sha3_256_digest};

verus! {

/// The SHA3-256 digest of `data`, as lowercase hexadecimal text.
pub fn hash_to_str(data: &[u8]) -> (res: String)
    ensures
        res@ == hex_lower(sha3_256(data@)),
        res@.len() == 64,
{
    let digest = sha3_256_digest(data);
    let res = to_hex(digest.as_slice());
    proof {
        crate::codec::lemma_hex_lower_len(sha3_256(data@));
    }
    res
}

/// Writes the SHA3-256 digest of `data` into `out`: the first
/// `min(out.len(), 32)` bytes of the digest land at the front of `out`, the
/// rest of `out` is left as it was.
pub fn hash_to_u8(data: &[u8], out: &mut [u8])
    ensures
        sha3_256(data@).len() == 32,
        final(out)@.len() == old(out)@.len(),
        ({
            let n = if old(out)@.len() < 32 { old(out)@.len() as int } else { 32 };
            final(out)@ == sha3_256(data@).take(n) + old(out)@.skip(n)
        }),
{
    let digest = sha3_256_digest(data);
    let n: usize = if out.len() < 32 { out.len() } else { 32 };
    let mut i: usize = 0;
    while i < n
        invariant
            n <= out@.len(),
            n <= 32,
            digest@.len() == 32,
            digest@ == sha3_256(data@),
            i <= n,
            out@.len() == old(out)@.len(),
            out@ == digest@.take(i as int) + old(out)@.skip(i as int),
        decreases n - i,
    {
        out[i] = digest[i];
        i = i + 1;
        assert(out@ =~= digest@.take(i as int) + old(out)@.skip(i as int));
    }
}

} // verus!

//! Digests computed by outside crates, each behind one trusted wrapper.
use vstd::prelude::*;

use crypto::digest::Digest;

verus! {

/// The SHA3-256 digest of a byte sequence, as computed by
/// `crypto::sha3::Sha3::sha3_256`.
pub uninterp spec fn sha3_256(data: Seq<u8>) -> Seq<u8>;

/// The SHA-256 digest of a byte sequence, as computed by `ring::digest`.
pub uninterp spec fn sha256(data: Seq<u8>) -> Seq<u8>;

/// The RIPEMD-160 digest of a byte sequence, as computed by
/// `crypto::ripemd160::Ripemd160`.
pub uninterp spec fn ripemd160(data: Seq<u8>) -> Seq<u8>;

/// Feeds `data` to a fresh `crypto::sha3::Sha3::sha3_256` hasher and reads
/// its digest with `Digest::result` into a 32-byte buffer.
/// Trusted: the bytes are the digest named `sha3_256`, and there are 32 of
/// them (the hasher's `output_bits` is 256).
#[verifier::external_body]
pub(crate) fn sha3_256_digest(data: &[u8]) -> (res: Vec<u8>)
    ensures
        res@ == sha3_256(data@),
        res@.len() == 32,
{
    let mut hasher = crypto::sha3::Sha3::sha3_256();
    hasher.input(data);
    let mut out = vec![0u8; 32];
    hasher.result(&mut out);
    out
}

/// Calls `ring::digest::digest` with `ring::digest::SHA256`.
/// Trusted: the bytes are the digest named `sha256`, and there are 32 of
/// them (`SHA256.output_len`).
#[verifier::external_body]
pub(crate) fn sha256_digest(data: &[u8]) -> (res: Vec<u8>)
    ensures
        res@ == sha256(data@),
        res@.len() == 32,
{
    ring::digest::digest(&ring::digest::SHA256, data).as_ref().to_vec()
}

/// Feeds `data` to a fresh `crypto::ripemd160::Ripemd160` hasher and reads
/// its digest with `Digest::result` into a 20-byte buffer.
/// Trusted: the bytes are the digest named `ripemd160`, and there are 20 of
/// them (the hasher's `output_bits` is 160).
#[verifier::external_body]
pub(crate) fn ripemd160_digest(data: &[u8]) -> (res: Vec<u8>)
    ensures
        res@ == ripemd160(data@),
        res@.len() == 20,
{
    let mut hasher = crypto::ripemd160::Ripemd160::new();
    hasher.input(data);
    let mut out = vec![0u8; 20];
    hasher.result(&mut out);
    out
}

} // verus!

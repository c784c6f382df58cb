//! Key pairs, public-key hashes and addresses.
use vstd::prelude::*;

use ring::signature::KeyPair;

use crate::codec::{base58, base58_decoded, base58_encode, leading_zeros, lemma_base58_round_trip};
use crate::hashing::{ripemd160, ripemd160_digest, sha256, sha256_digest};

verus! {

/// Version byte that starts every address payload.
pub const VERSION: u8 = 0x00;

/// Number of checksum bytes at the end of an address payload.
pub const ADDRESS_CHECKSUM_LEN: usize = 4;

/// The hash that locks funds to a public key: RIPEMD-160 of SHA-256.
pub open spec fn pub_key_hash(pub_key: Seq<u8>) -> Seq<u8> {
    ripemd160(sha256(pub_key))
}

/// The checksum of an address payload: the first four bytes of its double
/// SHA-256.
pub open spec fn payload_checksum(payload: Seq<u8>) -> Seq<u8> {
    sha256(sha256(payload)).take(ADDRESS_CHECKSUM_LEN as int)
}

/// RIPEMD-160 of the SHA-256 of `pub_key`.
pub fn hash_pub_key(pub_key: &[u8]) -> (res: Vec<u8>)
    ensures
        res@ == pub_key_hash(pub_key@),
        res@.len() == 20,
{
    let pub_key_sha256 = sha256_digest(pub_key);
    let pub_key_ripemd160 = ripemd160_digest(pub_key_sha256.as_slice());
    pub_key_ripemd160
}

/// The first four bytes of the double SHA-256 of `payload`.
pub fn checksum(payload: &[u8]) -> (res: Vec<u8>)
    ensures
        res@ == payload_checksum(payload@),
        res@.len() == ADDRESS_CHECKSUM_LEN,
{
    let first_sha = sha256_digest(payload);
    let second_sha = sha256_digest(first_sha.as_slice());
    let mut res: Vec<u8> = Vec::new();
    let mut i: usize = 0;
    while i < ADDRESS_CHECKSUM_LEN
        invariant
            i <= ADDRESS_CHECKSUM_LEN,
            second_sha@.len() == 32,
            res@ == second_sha@.take(i as int),
        decreases ADDRESS_CHECKSUM_LEN - i,
    {
        res.push(second_sha[i]);
        i = i + 1;
        assert(res@ =~= second_sha@.take(i as int));
    }
    res
}

/// The public key that a PKCS#8 P-256 key document holds, as read by
/// `ring::signature::EcdsaKeyPair::from_pkcs8`.
pub uninterp spec fn p256_public_key(pkcs8: Seq<u8>) -> Seq<u8>;

/// Whether `ring` accepts `signature` as an ECDSA P-256 / SHA-256
/// signature (fixed-length encoding) of `message` under `public_key`.
pub uninterp spec fn p256_verifies(public_key: Seq<u8>, signature: Seq<u8>, message: Seq<u8>) -> bool;

/// Generates a fresh P-256 key pair with
/// `ring::signature::EcdsaKeyPair::generate_pkcs8` and `SystemRandom`, and
/// returns its PKCS#8 document. Trusted for nothing: the key is random and
/// generation may fail (`None`).
#[verifier::external_body]
pub(crate) fn new_private_key() -> (res: Option<Vec<u8>>) {
    let rng = ring::rand::SystemRandom::new();
    match ring::signature::EcdsaKeyPair::generate_pkcs8(
        &ring::signature::ECDSA_P256_SHA256_FIXED_SIGNING,
        &rng,
    ) {
        Ok(doc) => Some(doc.as_ref().to_vec()),
        Err(_) => None,
    }
}

/// Parses `pkcs8` with `ring::signature::EcdsaKeyPair::from_pkcs8` and
/// returns `KeyPair::public_key`. Trusted: a key it returns is
/// `p256_public_key(pkcs8)`. When it fails (a malformed document, or the
/// random source `from_pkcs8` uses) nothing is stated.
#[verifier::external_body]
pub(crate) fn ecdsa_public_key(pkcs8: &[u8]) -> (res: Option<Vec<u8>>)
    ensures
        res is Some ==> res.unwrap()@ == p256_public_key(pkcs8@),
{
    match ring::signature::EcdsaKeyPair::from_pkcs8(
        &ring::signature::ECDSA_P256_SHA256_FIXED_SIGNING,
        pkcs8,
    ) {
        Ok(pair) => Some(pair.public_key().as_ref().to_vec()),
        Err(_) => None,
    }
}

/// Signs `message` with the P-256 key in `pkcs8` through
/// `ring::signature::EcdsaKeyPair::sign`, using `SystemRandom`. Trusted:
/// a signature it returns is 64 bytes long (`ECDSA_P256_SHA256_FIXED_SIGNING`
/// writes `r` and `s` as two 32-byte big-endian numbers), and it verifies
/// over `message` under the public key of the pair (ECDSA signatures made
/// by a key pair verify under its public key). Which bytes is not stated:
/// the signature depends on a random nonce; a malformed key or a failing
/// random source gives `None`.
#[verifier::external_body]
pub(crate) fn ecdsa_p256_sha256_sign_digest(pkcs8: &[u8], message: &[u8]) -> (res: Option<Vec<u8>>)
    ensures
        res is Some ==> res.unwrap()@.len() == 64,
        res is Some ==> p256_verifies(p256_public_key(pkcs8@), res.unwrap()@, message@),
{
    let rng = ring::rand::SystemRandom::new();
    let pair = match ring::signature::EcdsaKeyPair::from_pkcs8(
        &ring::signature::ECDSA_P256_SHA256_FIXED_SIGNING,
        pkcs8,
    ) {
        Ok(pair) => pair,
        Err(_) => return None,
    };
    match pair.sign(&rng, message) {
        Ok(sig) => Some(sig.as_ref().to_vec()),
        Err(_) => None,
    }
}

/// Checks `signature` over `message` under `public_key` with
/// `ring::signature::UnparsedPublicKey::verify` and
/// `ECDSA_P256_SHA256_FIXED`. Trusted: the answer is `p256_verifies` of the
/// three arguments.
#[verifier::external_body]
pub(crate) fn ecdsa_p256_sha256_sign_verify(public_key: &[u8], signature: &[u8], message: &[u8]) -> (res: bool)
    ensures
        res == p256_verifies(public_key@, signature@, message@),
{
    let key = ring::signature::UnparsedPublicKey::new(&ring::signature::ECDSA_P256_SHA256_FIXED, public_key);
    key.verify(message, signature).is_ok()
}

/// The payload an address encodes, before its checksum: the version byte
/// and the public-key hash.
pub open spec fn address_payload(public_key: Seq<u8>) -> Seq<u8> {
    seq![VERSION] + pub_key_hash(public_key)
}

/// The address of a public key: Base58 of the payload followed by its
/// checksum.
pub open spec fn address_of(public_key: Seq<u8>) -> Seq<char> {
    let payload = address_payload(public_key);
    base58(payload + payload_checksum(payload))
}

/// A key pair: the PKCS#8 document and its public key.
#[derive(Debug)]
pub struct Wallet {
    pkcs8: Vec<u8>,
    public_key: Vec<u8>,
}

/// What a `Wallet` holds.
pub struct WalletModel {
    pub pkcs8: Seq<u8>,
    pub public_key: Seq<u8>,
}

impl View for Wallet {
    type V = WalletModel;

    closed spec fn view(&self) -> WalletModel {
        WalletModel { pkcs8: self.pkcs8@, public_key: self.public_key@ }
    }
}

/// Appends the bytes of `tail` to `v`.
fn append_bytes(v: &mut Vec<u8>, tail: &[u8])
    ensures
        final(v)@ == old(v)@ + tail@,
{
    let mut i: usize = 0;
    while i < tail.len()
        invariant
            i <= tail@.len(),
            v@ == old(v)@ + tail@.take(i as int),
        decreases tail.len() - i,
    {
        v.push(tail[i]);
        i = i + 1;
        assert(v@ =~= old(v)@ + tail@.take(i as int));
    }
    assert(tail@.take(tail@.len() as int) =~= tail@);
}

impl Wallet {
    /// The public key is the one the PKCS#8 document holds.
    #[verifier::type_invariant]
    spec fn keys_match(&self) -> bool {
        self.public_key@ == p256_public_key(self.pkcs8@)
    }

    /// A wallet with a freshly generated key pair; `None` where generating
    /// or reading the key fails.
    pub fn new() -> (res: Option<Self>)
        ensures
            res matches Some(w) ==> w@.public_key == p256_public_key(w@.pkcs8),
    {
        let pkcs8 = new_private_key()?;
        Self::from_pkcs8(pkcs8)
    }

    /// The wallet of a PKCS#8 P-256 key document; `None` where `ring`
    /// does not read it.
    pub fn from_pkcs8(pkcs8: Vec<u8>) -> (res: Option<Self>)
        ensures
            res matches Some(w) ==> w@ == (WalletModel { pkcs8: pkcs8@, public_key: p256_public_key(pkcs8@) }),
    {
        match ecdsa_public_key(pkcs8.as_slice()) {
            Some(public_key) => Some(Wallet { pkcs8, public_key }),
            None => None,
        }
    }

    /// The address that receives funds for this wallet.
    pub fn get_address(&self) -> (res: String)
        ensures
            res@ == address_of(self@.public_key),
            res@.len() >= 1,
            res@[0] == '1',
            base58_decoded(res@) matches Some(p) && p.len() == 25 && p[0] == VERSION
                && p.subrange(1, 21) == pub_key_hash(self@.public_key)
                && p.subrange(21, 25) == payload_checksum(p.subrange(0, 21)),
            crate::transaction::address_key_hash(res@) == Some(pub_key_hash(self@.public_key)),
    {
        let key_hash = hash_pub_key(self.public_key.as_slice());
        let mut payload: Vec<u8> = Vec::new();
        payload.push(VERSION);
        append_bytes(&mut payload, key_hash.as_slice());
        assert(payload@ =~= address_payload(self@.public_key));
        let checksum = checksum(payload.as_slice());
        append_bytes(&mut payload, checksum.as_slice());
        proof {
            lemma_address_shape(self@.public_key);
            let payload = address_payload(self@.public_key);
            let full = payload + payload_checksum(payload);
            lemma_base58_round_trip(full);
            assert(full.subrange(0, 21) =~= payload);
            assert(full.subrange(1, 21) =~= pub_key_hash(self@.public_key));
            assert(full.subrange(21, 25) =~= payload_checksum(payload));
        }
        base58_encode(payload.as_slice())
    }

    /// The PKCS#8 document.
    pub fn get_pkcs8(&self) -> (res: &[u8])
        ensures
            res@ == self@.pkcs8,
    {
        self.pkcs8.as_slice()
    }

    /// The public key.
    pub fn get_public_key(&self) -> (res: &[u8])
        ensures
            res@ == self@.public_key,
            res@ == p256_public_key(self@.pkcs8),
    {
        proof {
            use_type_invariant(self);
        }
        self.public_key.as_slice()
    }
}

/// An address starts with `1` (its payload starts with the zero version
/// byte) and encodes 25 bytes: version, 20-byte key hash, 4-byte checksum.
proof fn lemma_address_shape(public_key: Seq<u8>)
    requires
        pub_key_hash(public_key).len() == 20,
        payload_checksum(address_payload(public_key)).len() == 4,
    ensures
        (address_payload(public_key) + payload_checksum(address_payload(public_key))).len() == 25,
        address_of(public_key).len() >= 1,
        address_of(public_key)[0] == '1',
{
    let payload = address_payload(public_key);
    let full = payload + payload_checksum(payload);
    assert(full[0] == 0);
    assert(full.len() > 0);
    assert(leading_zeros(full) >= 1);
}

} // verus!

use ring::signature::KeyPair;
use blockchain_rust::wallet::VERSION;
use blockchain_rust::{checksum, hash_pub_key, Wallet, ADDRESS_CHECKSUM_LEN};
use crypto::digest::Digest;

fn sha256(data: &[u8]) -> Vec<u8> {
    ring::digest::digest(&ring::digest::SHA256, data).as_ref().to_vec()
}

fn ripemd160(data: &[u8]) -> Vec<u8> {
    let mut hasher = crypto::ripemd160::Ripemd160::new();
    hasher.input(data);
    let mut out = vec![0u8; 20];
    hasher.result(&mut out);
    out
}

#[test]
fn hash_pub_key_is_ripemd160_of_sha256() {
    let key = b"some public key bytes";
    let h = hash_pub_key(key);
    assert_eq!(h.len(), 20);
    assert_eq!(h, ripemd160(&sha256(key)));
    assert_ne!(h, key[..20].to_vec());
}

#[test]
fn checksum_is_four_bytes_of_double_sha256() {
    let payload = [0u8, 1, 2, 3, 4];
    let c = checksum(&payload);
    assert_eq!(c.len(), ADDRESS_CHECKSUM_LEN);
    assert_eq!(c, sha256(&sha256(&payload))[..4].to_vec());
}

#[test]
fn new_wallet_has_an_address_starting_with_one() {
    let wallet = Wallet::new().expect("key generation");
    let address = wallet.get_address();
    assert!(address.starts_with('1'));

    let mut payload = vec![VERSION];
    payload.extend(ripemd160(&sha256(wallet.get_public_key())));
    let sum = sha256(&sha256(&payload));
    payload.extend(&sum[..4]);
    assert_eq!(payload.len(), 25);
    assert_eq!(address, bs58::encode(&payload).into_string());
    assert_eq!(blockchain_rust::codec::base58_decode(&address), Some(payload));
}

#[test]
fn wallet_from_pkcs8_reads_the_public_key() {
    let wallet = Wallet::new().expect("key generation");
    let again = Wallet::from_pkcs8(wallet.get_pkcs8().to_vec()).expect("valid key");
    assert_eq!(again.get_public_key(), wallet.get_public_key());
    assert_eq!(again.get_address(), wallet.get_address());
    assert!(Wallet::from_pkcs8(vec![1, 2, 3]).is_none());
}

#[test]
fn wallet_public_key_is_the_one_ring_reads() {
    let wallet = Wallet::new().expect("key generation");
    let pair = ring::signature::EcdsaKeyPair::from_pkcs8(
        &ring::signature::ECDSA_P256_SHA256_FIXED_SIGNING,
        wallet.get_pkcs8(),
    )
    .unwrap();
    assert_eq!(wallet.get_public_key(), pair.public_key().as_ref());
    assert_ne!(wallet.get_public_key(), wallet.get_pkcs8());
}

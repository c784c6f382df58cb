use blockchain_rust::codec::{base58_decode, base58_encode, to_hex};
use blockchain_rust::{hash_to_str, hash_to_u8};
use crypto::digest::Digest;

fn sha3_hex(data: &[u8]) -> String {
    let mut hasher = crypto::sha3::Sha3::sha3_256();
    hasher.input(data);
    hasher.result_str()
}

#[test]
fn to_hex_writes_two_lowercase_digits_per_byte() {
    assert_eq!(to_hex(&[]), "");
    assert_eq!(to_hex(&[0x00, 0x0f, 0xa5, 0xff]), "000fa5ff");
}

#[test]
fn hash_to_str_is_sha3_256_hex() {
    assert_eq!(
        hash_to_str(b"abc"),
        "3a985da74fe225b2045c172d6bd390bd855f086e3e9d525b46bfe24511431532"
    );
    assert_eq!(
        hash_to_str(b""),
        "a7ffc6f8bf1ed76651c14756a061d662f580ff4de43b49fa82d80a4b80f8434a"
    );
    for data in [&b"blockchain"[..], &[0u8; 200][..], &[7u8, 1, 2][..]] {
        assert_eq!(hash_to_str(data), sha3_hex(data));
    }
}

#[test]
fn hash_to_u8_fills_the_buffer_front() {
    let mut full = [0u8; 32];
    hash_to_u8(b"abc", &mut full);
    assert_eq!(to_hex(&full), hash_to_str(b"abc"));

    let mut short = [9u8; 4];
    hash_to_u8(b"abc", &mut short);
    assert_eq!(short, [0x3a, 0x98, 0x5d, 0xa7]);

    let mut long = [9u8; 40];
    hash_to_u8(b"abc", &mut long);
    assert_eq!(&long[..32], &full[..]);
    assert_eq!(&long[32..], &[9u8; 8][..]);
}

#[test]
fn base58_matches_reference_encoder() {
    let cases: Vec<Vec<u8>> = vec![
        vec![],
        vec![0],
        vec![0, 0, 0],
        vec![57],
        vec![58],
        vec![255],
        vec![0, 0, 1, 2, 3],
        b"hello world".to_vec(),
        (0u8..=255).collect(),
        vec![0, 0xff, 0, 0xff, 0],
    ];
    for case in cases {
        assert_eq!(base58_encode(&case), bs58::encode(&case).into_string());
    }
}

#[test]
fn base58_known_values() {
    assert_eq!(base58_encode(b"hello world"), "StV1DL6CwTryKyV");
    assert_eq!(base58_encode(&[0, 0, 0]), "111");
    assert_eq!(base58_encode(&[]), "");
    assert_eq!(base58_encode(&[0, 57]), "1z");
}

#[test]
fn base58_decode_inverts_encode() {
    let cases: Vec<Vec<u8>> = vec![vec![], vec![0], vec![0, 0, 5], b"hello world".to_vec(), (0u8..=255).collect()];
    for case in cases {
        let text = base58_encode(&case);
        assert_eq!(base58_decode(&text), Some(case.clone()));
        assert_eq!(base58_decode(&text), bs58::decode(&text).into_vec().ok());
    }
    assert_eq!(base58_decode("StV1DL6CwTryKyV"), Some(b"hello world".to_vec()));
    assert_eq!(base58_decode("0OIl"), None);
    assert_eq!(base58_decode("ab!"), None);
    assert_eq!(base58_decode(""), Some(vec![]));
}

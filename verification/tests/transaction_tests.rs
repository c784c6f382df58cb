use blockchain_rust::transaction::{find_transaction, SUBSIDY};
use blockchain_rust::{Transaction, Txinput, Txoutput, Wallet};
use crypto::digest::Digest;

fn sha3_hex(data: &[u8]) -> String {
    let mut hasher = crypto::sha3::Sha3::sha3_256();
    hasher.input(data);
    hasher.result_str()
}

type InputTuple = (String, usize, Vec<u8>, Vec<u8>);
type OutputTuple = (i32, String);

fn expected_id(id: &str, vin: Vec<InputTuple>, vout: Vec<OutputTuple>) -> String {
    let bytes = bincode::serialize(&(id.to_string(), vin, vout)).unwrap();
    sha3_hex(&bytes)
}

#[test]
fn txoutput_locks_to_its_address() {
    let out = Txoutput::new(7, "Justin");
    assert_eq!(out.get_value(), 7);
    assert!(out.is_locked("Justin"));
    assert!(!out.is_locked("justin"));
    assert!(!out.is_locked(""));
    assert_eq!(out.get_to_addr(), "Justin");
}

#[test]
fn txinput_accessors_round_trip() {
    let mut input = Txinput::new("abc".to_string(), 3, vec![1, 2, 3]);
    assert_eq!(input.get_txid(), "abc");
    assert_eq!(input.get_vout(), 3);
    assert_eq!(input.get_pub_key(), &[1, 2, 3]);
    assert!(input.get_signature().is_empty());
    input.set_signature(vec![9, 9]);
    assert_eq!(input.get_signature(), &[9, 9]);
    input.set_pub_key(&[4]);
    assert_eq!(input.get_pub_key(), &[4]);
    assert_eq!(input.get_txid(), "abc");
}

#[test]
fn txinput_unlocks_with_the_hash_of_its_key() {
    let input = Txinput::new("t".to_string(), 0, b"key".to_vec());
    let own = blockchain_rust::hash_pub_key(b"key");
    assert!(input.can_unlock_output(&own));
    let other = blockchain_rust::hash_pub_key(b"other");
    assert!(!input.can_unlock_output(&other));
    assert!(!input.can_unlock_output(b"key"));
}

#[test]
fn coinbase_pays_the_subsidy_and_is_hashed() {
    let tx = Transaction::new_coinbase("Justin");
    assert!(tx.is_coinbase());
    assert_eq!(tx.get_vin().len(), 1);
    assert_eq!(tx.get_vout().len(), 1);
    assert_eq!(tx.get_vout()[0].get_value(), SUBSIDY);
    assert!(tx.get_vout()[0].is_locked("Justin"));
    let id = expected_id(
        "",
        vec![(String::new(), 0, vec![], vec![])],
        vec![(SUBSIDY, "Justin".to_string())],
    );
    assert_eq!(tx.get_id(), id);
    assert_eq!(tx.get_id().len(), 64);
}

#[test]
fn new_utxo_pays_amount_and_returns_change() {
    let valid = vec![
        ("aa".to_string(), vec![0usize, 2]),
        ("bb".to_string(), vec![1usize]),
    ];
    let tx = Transaction::unsigned_utxo("alice", "bob", 6, &[5, 5], 10, &valid);
    assert!(!tx.is_coinbase());
    let vin = tx.get_vin();
    assert_eq!(vin.len(), 3);
    assert_eq!((vin[0].get_txid(), vin[0].get_vout()), ("aa".to_string(), 0));
    assert_eq!((vin[1].get_txid(), vin[1].get_vout()), ("aa".to_string(), 2));
    assert_eq!((vin[2].get_txid(), vin[2].get_vout()), ("bb".to_string(), 1));
    assert!(vin.iter().all(|i| i.get_pub_key() == &[5, 5] && i.get_signature().is_empty()));
    let vout = tx.get_vout();
    assert_eq!(vout.len(), 2);
    assert_eq!(vout[0].get_value(), 6);
    assert!(vout[0].is_locked("bob"));
    assert_eq!(vout[1].get_value(), 4);
    assert!(vout[1].is_locked("alice"));
    let id = expected_id(
        "",
        vec![
            ("aa".to_string(), 0, vec![], vec![5, 5]),
            ("aa".to_string(), 2, vec![], vec![5, 5]),
            ("bb".to_string(), 1, vec![], vec![5, 5]),
        ],
        vec![(6, "bob".to_string()), (4, "alice".to_string())],
    );
    assert_eq!(tx.get_id(), id);
}

#[test]
fn new_utxo_without_change() {
    let valid = vec![("aa".to_string(), vec![0usize])];
    let tx = Transaction::unsigned_utxo("alice", "bob", 10, &[1], 10, &valid);
    assert_eq!(tx.get_vout().len(), 1);
    assert_eq!(tx.get_vout()[0].get_value(), 10);
}

#[test]
fn trimmed_copy_clears_keys_and_signatures() {
    let valid = vec![("aa".to_string(), vec![0usize, 1])];
    let tx = Transaction::unsigned_utxo("a", "b", 1, &[7, 7], 3, &valid);
    let copy = tx.trimmed_copy();
    assert_eq!(copy.get_id(), tx.get_id());
    assert_eq!(copy.get_vin().len(), 2);
    for (c, o) in copy.get_vin().iter().zip(tx.get_vin()) {
        assert_eq!(c.get_txid(), o.get_txid());
        assert_eq!(c.get_vout(), o.get_vout());
        assert!(c.get_pub_key().is_empty());
        assert!(c.get_signature().is_empty());
    }
    assert_eq!(copy.get_vout().len(), tx.get_vout().len());
}

#[test]
fn find_transaction_gives_the_first_match() {
    let a = Transaction::new_coinbase("a");
    let b = Transaction::new_coinbase("b");
    let a2 = Transaction::new_coinbase("a");
    let txs = vec![a, b, a2];
    assert_eq!(find_transaction(&txs, &txs[1].get_id()), Some(1));
    assert_eq!(find_transaction(&txs, &txs[0].get_id()), Some(0));
    assert_eq!(find_transaction(&txs, &"none".to_string()), None);
}

#[test]
fn signed_transaction_verifies_and_tampering_is_caught() {
    let wallet = Wallet::new().expect("key generation");
    let address = wallet.get_address();
    let prev = Transaction::new_coinbase(&address);
    let prevs = vec![prev];
    let valid = vec![(prevs[0].get_id(), vec![0usize])];
    let mut tx = Transaction::unsigned_utxo(&address, "bob", 4, wallet.get_public_key(), 10, &valid);
    let unsigned_messages = tx.signing_messages(&prevs);
    assert!(tx.sign(&prevs, wallet.get_pkcs8()));
    assert_eq!(tx.signing_messages(&prevs), unsigned_messages);
    assert_eq!(tx.get_vin()[0].get_signature().len(), 64);
    assert!(tx.verify(&prevs));

    let other = Wallet::new().expect("key generation");
    let mut forged = Transaction::unsigned_utxo(&address, "bob", 4, wallet.get_public_key(), 10, &valid);
    assert!(forged.sign(&prevs, other.get_pkcs8()));
    assert!(!forged.verify(&prevs));

    assert!(prevs[0].verify(&[]));
}

#[test]
fn signing_message_is_the_chained_copy_hash() {
    let wallet = Wallet::new().expect("key generation");
    let address = wallet.get_address();
    let prev = Transaction::new_coinbase(&address);
    let prevs = vec![prev];
    let valid = vec![(prevs[0].get_id(), vec![0usize])];
    let tx = Transaction::unsigned_utxo(&address, "1Dave", 10, &[3], 10, &valid);
    let messages = tx.signing_messages(&prevs);
    let key_hash = blockchain_rust::hash_pub_key(wallet.get_public_key());
    assert_eq!(prevs[0].get_vout()[0].get_pub_key_hash(), Some(key_hash.clone()));
    let id = expected_id(
        &tx.get_id(),
        vec![(prevs[0].get_id(), 0, vec![], key_hash)],
        vec![(10, "1Dave".to_string())],
    );
    assert_eq!(messages, vec![id.into_bytes()]);
}

#[test]
fn signing_with_a_malformed_key_fails_and_signs_nothing() {
    let wallet = Wallet::new().expect("key generation");
    let address = wallet.get_address();
    let prev = Transaction::new_coinbase(&address);
    let prevs = vec![prev];
    let valid = vec![(prevs[0].get_id(), vec![0usize])];
    let mut tx = Transaction::unsigned_utxo(&address, "1Frank", 1, &[2], 10, &valid);
    let id = tx.get_id();
    assert!(!tx.sign(&prevs, &[1, 2, 3]));
    assert!(tx.get_vin()[0].get_signature().is_empty());
    assert_eq!(tx.get_id(), id);
}

#[test]
fn new_utxo_builds_and_signs_a_transfer() {
    let wallet = Wallet::new().expect("key generation");
    let address = wallet.get_address();
    let prev = Transaction::new_coinbase(&address);
    let other = Transaction::new_coinbase("1BobAddress");
    let prevs = vec![other, prev];
    let utxos = blockchain_rust::utxo::unspent_outputs(&prevs);
    let tx = Transaction::new_utxo(&address, "1Carol", 3, &wallet, &utxos, &prevs).expect("signed");
    assert_eq!(tx.get_vin().len(), 1);
    assert_eq!(tx.get_vin()[0].get_txid(), prevs[1].get_id());
    assert_eq!(tx.get_vin()[0].get_vout(), 0);
    assert_eq!(tx.get_vin()[0].get_pub_key(), wallet.get_public_key());
    assert_eq!(tx.get_vin()[0].get_signature().len(), 64);
    assert_eq!(tx.get_vout().len(), 2);
    assert_eq!(tx.get_vout()[0].get_value(), 3);
    assert!(tx.get_vout()[0].is_locked("1Carol"));
    assert_eq!(tx.get_vout()[1].get_value(), 7);
    assert!(tx.get_vout()[1].is_locked(&address));
    let unsigned = Transaction::unsigned_utxo(&address, "1Carol", 3, wallet.get_public_key(), 10, &[(prevs[1].get_id(), vec![0usize])]);
    assert_eq!(tx.get_id(), unsigned.get_id());
    assert!(tx.verify(&prevs));
    assert!(!tx.is_coinbase());
}

#[test]
fn new_utxo_of_nothing_needs_no_signature() {
    let wallet = Wallet::new().expect("key generation");
    let address = wallet.get_address();
    let tx = Transaction::new_utxo(&address, "1Carol", 0, &wallet, &[], &[]).expect("nothing to sign");
    assert!(tx.get_vin().is_empty());
    assert_eq!(tx.get_vout().len(), 1);
    assert_eq!(tx.get_vout()[0].get_value(), 0);
    assert!(tx.get_vout()[0].is_locked("1Carol"));
    assert!(!tx.is_coinbase());
}

#[test]
fn pub_key_hash_of_an_output_is_its_decoded_address() {
    let wallet = Wallet::new().expect("key generation");
    let out = Txoutput::new(1, &wallet.get_address());
    assert_eq!(out.get_pub_key_hash(), Some(blockchain_rust::hash_pub_key(wallet.get_public_key())));
    assert_eq!(Txoutput::new(1, "erin").get_pub_key_hash(), None);
    assert_eq!(Txoutput::new(1, "alice").get_pub_key_hash(), None);
    // Seven bytes decode to a two-byte hash between version and checksum.
    let seven = bs58::encode(&[0u8, 0xaa, 0xbb, 1, 2, 3, 4]).into_string();
    assert_eq!(Txoutput::new(1, &seven).get_pub_key_hash(), Some(vec![0xaa, 0xbb]));
}

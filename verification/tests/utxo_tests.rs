use blockchain_rust::utxo::{find_spendable_outputs, unspent_outputs};
use blockchain_rust::{hash_pub_key, Transaction, Txinput, Txoutput, Wallet};

#[test]
fn unspent_outputs_skips_spent_ones() {
    let a = Transaction::new_coinbase("alice");
    let b = Transaction::new_coinbase("bob");
    let valid = vec![(a.get_id(), vec![0usize])];
    let pay = Transaction::unsigned_utxo("alice", "carol", 4, &[1], 10, &valid);
    let txs = vec![a, b, pay];
    let utxos = unspent_outputs(&txs);
    let summary: Vec<(String, usize, i32)> =
        utxos.iter().map(|(id, k, o)| (id.clone(), *k, o.get_value())).collect();
    assert_eq!(
        summary,
        vec![
            (txs[1].get_id(), 0, 10),
            (txs[2].get_id(), 0, 4),
            (txs[2].get_id(), 1, 6),
        ]
    );
    assert!(utxos[2].2.is_locked("alice"));
}

/// A fresh wallet's address and the public-key hash it stands for.
fn fresh_key() -> (String, Vec<u8>) {
    let wallet = Wallet::new().expect("key generation");
    (wallet.get_address(), hash_pub_key(wallet.get_public_key()))
}

#[test]
fn spendable_outputs_stop_at_the_amount() {
    let (alice, alice_hash) = fresh_key();
    let (bob, bob_hash) = fresh_key();
    let utxos = vec![
        ("t1".to_string(), 0usize, Txoutput::new(3, &alice)),
        ("t2".to_string(), 1usize, Txoutput::new(5, &bob)),
        ("t3".to_string(), 0usize, Txoutput::new(4, &alice)),
        ("t4".to_string(), 2usize, Txoutput::new(9, &alice)),
        ("t5".to_string(), 0usize, Txoutput::new(8, "alice")),
    ];
    let (acc, picked) = find_spendable_outputs(&utxos, &alice_hash, 6);
    assert_eq!(acc, 7);
    assert_eq!(picked, vec![("t1".to_string(), vec![0]), ("t3".to_string(), vec![0])]);

    let (acc, picked) = find_spendable_outputs(&utxos, &alice_hash, 100);
    assert_eq!(acc, 16);
    assert_eq!(picked.len(), 3);

    let (acc, picked) = find_spendable_outputs(&utxos, &bob_hash, 100);
    assert_eq!(acc, 5);
    assert_eq!(picked, vec![("t2".to_string(), vec![1])]);

    let (acc, picked) = find_spendable_outputs(&utxos, &[0u8; 20], 1);
    assert_eq!(acc, 0);
    assert!(picked.is_empty());
}

#[test]
fn spendable_outputs_go_by_key_hash_not_address_text() {
    // Two addresses with the same hash between version byte and checksum.
    let first = bs58::encode(&[0u8, 0xaa, 0xbb, 1, 2, 3, 4]).into_string();
    let second = bs58::encode(&[9u8, 0xaa, 0xbb, 5, 6, 7, 8]).into_string();
    assert_ne!(first, second);
    let utxos = vec![
        ("t1".to_string(), 0usize, Txoutput::new(2, &first)),
        ("t2".to_string(), 0usize, Txoutput::new(3, &second)),
    ];
    let (acc, picked) = find_spendable_outputs(&utxos, &[0xaa, 0xbb], 5);
    assert_eq!(acc, 5);
    assert_eq!(picked, vec![("t1".to_string(), vec![0]), ("t2".to_string(), vec![0])]);
}

#[test]
fn spendable_outputs_skip_an_overflowing_value() {
    let (alice, alice_hash) = fresh_key();
    let utxos = vec![
        ("t1".to_string(), 0usize, Txoutput::new(i32::MAX - 1, &alice)),
        ("t2".to_string(), 0usize, Txoutput::new(5, &alice)),
        ("t3".to_string(), 0usize, Txoutput::new(1, &alice)),
    ];
    let (acc, picked) = find_spendable_outputs(&utxos, &alice_hash, i32::MAX);
    assert_eq!(acc, i32::MAX);
    assert_eq!(picked, vec![("t1".to_string(), vec![0]), ("t3".to_string(), vec![0])]);
}

#[test]
fn inputs_resolve_checks_ids_and_indices() {
    let address = blockchain_rust::Wallet::new().unwrap().get_address();
    let a = Transaction::new_coinbase(&address);
    let prevs = vec![a];
    let ok = Transaction::unsigned_utxo("alice", "bob", 1, &[1], 10, &[(prevs[0].get_id(), vec![0usize])]);
    assert!(ok.inputs_resolve(&prevs));
    let plain = vec![Transaction::new_coinbase("alice")];
    let undecodable = Transaction::unsigned_utxo("alice", "bob", 1, &[1], 10, &[(plain[0].get_id(), vec![0usize])]);
    assert!(!undecodable.inputs_resolve(&plain));
    let bad_index = Transaction::unsigned_utxo("alice", "bob", 1, &[1], 10, &[(prevs[0].get_id(), vec![1usize])]);
    assert!(!bad_index.inputs_resolve(&prevs));
    let bad_id = Transaction::unsigned_utxo("alice", "bob", 1, &[1], 10, &[("zz".to_string(), vec![0usize])]);
    assert!(!bad_id.inputs_resolve(&prevs));
}

#[test]
fn from_parts_keeps_the_given_fields() {
    let tx = Transaction::from_parts(
        "id".to_string(),
        vec![Txinput::new("p".to_string(), 2, vec![1])],
        vec![Txoutput::new(3, "x")],
    );
    assert_eq!(tx.get_id(), "id");
    assert_eq!(tx.get_vin()[0].get_vout(), 2);
    assert_eq!(tx.get_vout()[0].get_value(), 3);
    assert!(!tx.is_coinbase());
}

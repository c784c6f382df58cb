# blockchain_rust

A small proof-of-work blockchain whose core is verified with Verus.

- `src/` is the verified library:
  - `codec`: hexadecimal text, Base58 encoding and decoding (with the
    round-trip law), and the byte layout bincode gives to hashed values.
  - `hashing`: SHA3-256, SHA-256 and RIPEMD-160, called through trusted
    wrappers over `rust-crypto` and `ring`.
  - `serializer`: `hash_to_str` and `hash_to_u8`.
  - `wallet`: key pairs (`ring` ECDSA P-256), public-key hashes, checksums
    and addresses.
  - `transaction`: inputs, outputs, transactions, their ids, signing and
    verification.
  - `utxo`: unspent outputs and the choice of outputs that pay a transfer.
  - `block`: headers, blocks and the proof of work (targets through
    `bigint`).
  - `blockchain`: an in-memory chain that keeps every block linked to the
    one before it.
  - `node`: what a node does with the messages peers send it and with the
    command that starts a chain.
- `app/` is the node program: sled storage, wallets file, libp2p gossip and
  mDNS, and the command loop on standard input.
- `tests/` exercises the library against the outside crates directly.

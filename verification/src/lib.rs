//! A small proof-of-work blockchain: blocks sealed by a SHA3 proof of work,
//! transactions with ECDSA-signed inputs, and Base58 wallet addresses.
use vstd::prelude::*;

pub mod block;
pub mod blockchain;
pub mod codec;
pub mod hashing;
pub mod node;
pub mod serializer;
pub mod transaction;
pub mod utxo;
pub mod wallet;

pub use block::{Block, BlockHeader, ProofOfWork};
pub use blockchain::{Blockchain, CURR_BITS};
pub use node::Messages;
pub use serializer::{hash_to_str, hash_to_u8};
pub use transaction::{Transaction, Txinput, Txoutput};
pub use wallet::{checksum, hash_pub_key, Wallet, ADDRESS_CHECKSUM_LEN};

verus! {

} // verus!

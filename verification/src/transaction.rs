//! Transactions, their inputs and outputs.
use vstd::prelude::*;

use crate::codec::{base58_decode, base58_decoded, bincode_bytes, bincode_list, bincode_str, hex_lower, le_bytes};
use crate::hashing::sha3_256;
use crate::serializer::hash_to_str;
use crate::utxo::{
    entries_value, find_spendable_outputs, lemma_picked_entries, picked_model, spendable_upto, utxo_model, UtxoModel,
};
use crate::wallet::{
    ADDRESS_CHECKSUM_LEN,
    Wallet,
    p256_public_key,
    ecdsa_p256_sha256_sign_digest, ecdsa_p256_sha256_sign_verify, hash_pub_key, p256_verifies, pub_key_hash,
};

verus! {

/// Reward paid by a coinbase transaction.
pub const SUBSIDY: i32 = 10;

/// An output: an amount locked to an address.
#[derive(Debug)]
pub struct Txoutput {
    value: i32,
    to_addr: String,
}

/// What a `Txoutput` holds.
pub struct TxoutputModel {
    pub value: i32,
    pub to_addr: Seq<char>,
}

impl View for Txoutput {
    type V = TxoutputModel;

    closed spec fn view(&self) -> TxoutputModel {
        TxoutputModel { value: self.value, to_addr: self.to_addr@ }
    }
}

impl Txoutput {
    /// An output of `value` locked to `to_addr`.
    pub fn new(value: i32, to_addr: &str) -> (res: Self)
        ensures
            res@ == (TxoutputModel { value, to_addr: to_addr@ }),
    {
        Self { value, to_addr: to_addr.to_owned() }
    }

    /// Whether this output is locked to `address`.
    pub fn is_locked(&self, address: &str) -> (res: bool)
        ensures
            res == (self@.to_addr == address@),
    {
        let address = address.to_owned();
        self.to_addr == address
    }

    /// The amount of this output.
    pub fn get_value(&self) -> (res: i32)
        ensures
            res == self@.value,
    {
        self.value
    }

    /// The address this output is locked to.
    pub fn get_to_addr(&self) -> (res: &str)
        ensures
            res@ == self@.to_addr,
    {
        self.to_addr.as_str()
    }

    /// A copy of this output.
    pub fn duplicate(&self) -> (res: Self)
        ensures
            res@ == self@,
    {
        Self { value: self.value, to_addr: self.to_addr.clone() }
    }

    /// The public-key hash this output is locked to: the address decoded
    /// from Base58 without its version byte and its checksum; `None` where
    /// the address does not decode to at least five bytes.
    pub fn get_pub_key_hash(&self) -> (res: Option<Vec<u8>>)
        ensures
            res is Some <==> address_key_hash(self@.to_addr) is Some,
            res is Some ==> res.unwrap()@ == address_key_hash(self@.to_addr).unwrap(),
    {
        let payload = match base58_decode(self.to_addr.as_str()) {
            Some(p) => p,
            None => {
                return None;
            },
        };
        if payload.len() < 1 + ADDRESS_CHECKSUM_LEN {
            return None;
        }
        let end = payload.len() - ADDRESS_CHECKSUM_LEN;
        let mut hash: Vec<u8> = Vec::new();
        let mut i: usize = 1;
        while i < end
            invariant
                1 <= i <= end,
                end == payload@.len() - ADDRESS_CHECKSUM_LEN,
                hash@ == payload@.subrange(1, i as int),
            decreases end - i,
        {
            hash.push(payload[i]);
            i = i + 1;
            assert(hash@ =~= payload@.subrange(1, i as int));
        }
        Some(hash)
    }
}

/// An input: a reference to an output of an earlier transaction, with the
/// spender's signature and public key.
#[derive(Debug)]
pub struct Txinput {
    txid: String,
    vout: usize,
    signature: Vec<u8>,
    pub_key: Vec<u8>,
}

/// What a `Txinput` holds.
pub struct TxinputModel {
    pub txid: Seq<char>,
    pub vout: usize,
    pub signature: Seq<u8>,
    pub pub_key: Seq<u8>,
}

impl View for Txinput {
    type V = TxinputModel;

    closed spec fn view(&self) -> TxinputModel {
        TxinputModel {
            txid: self.txid@,
            vout: self.vout,
            signature: self.signature@,
            pub_key: self.pub_key@,
        }
    }
}

impl Default for Txinput {
    fn default() -> (res: Self)
        ensures
            res@ == (TxinputModel {
                txid: Seq::empty(),
                vout: 0,
                signature: Seq::empty(),
                pub_key: Seq::empty(),
            }),
    {
        Txinput { txid: String::new(), vout: 0, signature: Vec::new(), pub_key: Vec::new() }
    }
}

impl Txinput {
    /// An unsigned input spending output `vout` of transaction `txid`.
    pub fn new(txid: String, vout: usize, pub_key: Vec<u8>) -> (res: Self)
        ensures
            res@ == (TxinputModel {
                txid: txid@,
                vout,
                signature: Seq::empty(),
                pub_key: pub_key@,
            }),
    {
        Self { txid, vout, signature: Vec::new(), pub_key }
    }

    /// Whether the public key of this input hashes to `pub_key_hash`.
    pub fn can_unlock_output(&self, pub_key_hash: &[u8]) -> (res: bool)
        ensures
            res == (crate::wallet::pub_key_hash(self@.pub_key) == pub_key_hash@),
    {
        let locked_hash = hash_pub_key(self.pub_key.as_slice());
        bytes_eq(locked_hash.as_slice(), pub_key_hash)
    }

    /// The id of the transaction whose output this input spends.
    pub fn get_txid(&self) -> (res: String)
        ensures
            res@ == self@.txid,
    {
        self.txid.clone()
    }

    /// The index of the spent output.
    pub fn get_vout(&self) -> (res: usize)
        ensures
            res == self@.vout,
    {
        self.vout
    }

    /// The spender's public key.
    pub fn get_pub_key(&self) -> (res: &[u8])
        ensures
            res@ == self@.pub_key,
    {
        self.pub_key.as_slice()
    }

    /// The signature over this input.
    pub fn get_signature(&self) -> (res: &[u8])
        ensures
            res@ == self@.signature,
    {
        self.signature.as_slice()
    }

    /// Replaces the signature.
    pub fn set_signature(&mut self, signature: Vec<u8>)
        ensures
            final(self)@ == (TxinputModel { signature: signature@, ..old(self)@ }),
    {
        self.signature = signature
    }

    /// Replaces the public key with a copy of `pub_key`.
    pub fn set_pub_key(&mut self, pub_key: &[u8])
        ensures
            final(self)@ == (TxinputModel { pub_key: pub_key@, ..old(self)@ }),
    {
        self.pub_key = vstd::slice::slice_to_vec(pub_key);
    }

    /// A copy of this input.
    pub fn duplicate(&self) -> (res: Self)
        ensures
            res@ == self@,
    {
        Self {
            txid: self.txid.clone(),
            vout: self.vout,
            signature: self.signature.clone(),
            pub_key: self.pub_key.clone(),
        }
    }
}

/// Whether two byte slices hold the same bytes.
pub fn bytes_eq(a: &[u8], b: &[u8]) -> (res: bool)
    ensures
        res == (a@ == b@),
{
    if a.len() != b.len() {
        return false;
    }
    let mut i: usize = 0;
    while i < a.len()
        invariant
            a@.len() == b@.len(),
            i <= a@.len(),
            forall|k: int| 0 <= k < i ==> a@[k] == b@[k],
        decreases a.len() - i,
    {
        if a[i] != b[i] {
            return false;
        }
        i = i + 1;
    }
    assert(a@ =~= b@);
    true
}

/// The public-key hash an address stands for: its Base58 bytes without the
/// version byte and the checksum, when there are at least five of them.
pub open spec fn address_key_hash(address: Seq<char>) -> Option<Seq<u8>> {
    match base58_decoded(address) {
        Some(p) => if p.len() >= 1 + ADDRESS_CHECKSUM_LEN {
            Some(p.subrange(1, p.len() - ADDRESS_CHECKSUM_LEN))
        } else {
            None
        },
        None => None,
    }
}

/// bincode's encoding of an input.
pub open spec fn txinput_bytes(i: TxinputModel) -> Seq<u8> {
    bincode_str(i.txid) + le_bytes(i.vout as int, 8) + bincode_bytes(i.signature)
        + bincode_bytes(i.pub_key)
}

/// bincode's encoding of an output.
pub open spec fn txoutput_bytes(o: TxoutputModel) -> Seq<u8> {
    le_bytes(o.value as int, 4) + bincode_str(o.to_addr)
}

/// A transaction: its id, its inputs and its outputs.
#[derive(Debug)]
pub struct Transaction {
    id: String,
    vin: Vec<Txinput>,
    vout: Vec<Txoutput>,
}

/// What a `Transaction` holds.
pub struct TransactionModel {
    pub id: Seq<char>,
    pub vin: Seq<TxinputModel>,
    pub vout: Seq<TxoutputModel>,
}

impl View for Transaction {
    type V = TransactionModel;

    closed spec fn view(&self) -> TransactionModel {
        TransactionModel {
            id: self.id@,
            vin: self.vin@.map_values(|i: Txinput| i@),
            vout: self.vout@.map_values(|o: Txoutput| o@),
        }
    }
}

/// bincode's encoding of a transaction.
pub open spec fn transaction_bytes(t: TransactionModel) -> Seq<u8> {
    bincode_str(t.id) + bincode_list(t.vin.map_values(|i: TxinputModel| txinput_bytes(i)))
        + bincode_list(t.vout.map_values(|o: TxoutputModel| txoutput_bytes(o)))
}

/// The id a transaction gets from `set_hash`: the hexadecimal SHA3-256 of
/// its encoding.
pub open spec fn transaction_hash(t: TransactionModel) -> Seq<char> {
    hex_lower(sha3_256(transaction_bytes(t)))
}

/// `t` with its id replaced by `id`.
pub open spec fn with_id(t: TransactionModel, id: Seq<char>) -> TransactionModel {
    TransactionModel { id, ..t }
}

/// An input with its signature and public key cleared.
pub open spec fn trimmed_input(i: TxinputModel) -> TxinputModel {
    TxinputModel { signature: Seq::empty(), pub_key: Seq::empty(), ..i }
}

/// `t` with every input's signature and public key cleared.
pub open spec fn trimmed(t: TransactionModel) -> TransactionModel {
    TransactionModel { vin: t.vin.map_values(|i: TxinputModel| trimmed_input(i)), ..t }
}

/// Whether `t` is a coinbase transaction: one input, with no public key.
pub open spec fn is_coinbase_model(t: TransactionModel) -> bool {
    t.vin.len() == 1 && t.vin[0].pub_key.len() == 0
}

/// The input of a coinbase transaction.
pub open spec fn coinbase_input() -> TxinputModel {
    TxinputModel { txid: Seq::empty(), vout: 0, signature: Seq::empty(), pub_key: Seq::empty() }
}

/// The coinbase transaction paying `SUBSIDY` to `to`.
pub open spec fn coinbase_model(to: Seq<char>) -> TransactionModel {
    let unhashed = TransactionModel {
        id: Seq::empty(),
        vin: seq![coinbase_input()],
        vout: seq![TxoutputModel { value: SUBSIDY, to_addr: to }],
    };
    with_id(unhashed, transaction_hash(unhashed))
}

/// Encodes a transaction with `bincode::serialize`, passing its fields as
/// a tuple of plain values (which bincode encodes exactly as the struct).
/// Trusted: bincode 1.x with its default fixed-width little-endian
/// options returns `Ok` with the bytes of `transaction_bytes`; its source
/// writes strings and vectors as a `u64` length followed by the elements,
/// integers little-endian at their own width, tuple fields in order, and
/// no error path is reached for these types.
#[verifier::external_body]
fn serialize_transaction(tx: &Transaction) -> (res: Option<Vec<u8>>)
    ensures
        res is Some,
        res.unwrap()@ == transaction_bytes(tx@),
{
    let vin: Vec<(&String, usize, &Vec<u8>, &Vec<u8>)> =
        tx.vin.iter().map(|i| (&i.txid, i.vout, &i.signature, &i.pub_key)).collect();
    let vout: Vec<(i32, &String)> = tx.vout.iter().map(|o| (o.value, &o.to_addr)).collect();
    bincode::serialize(&(&tx.id, &vin, &vout)).ok()
}

impl Transaction {
    /// A coinbase transaction paying the subsidy to `to`.
    pub fn new_coinbase(to: &str) -> (res: Self)
        ensures
            res@ == coinbase_model(to@),
    {
        let txin = Txinput::default();
        let txout = Txoutput::new(SUBSIDY, to);
        let mut vin: Vec<Txinput> = Vec::new();
        vin.push(txin);
        let mut vout: Vec<Txoutput> = Vec::new();
        vout.push(txout);
        let mut tx = Transaction { id: String::new(), vin, vout };
        assert(tx@.vin =~= seq![coinbase_input()]);
        assert(tx@.vout =~= seq![TxoutputModel { value: SUBSIDY, to_addr: to@ }]);
        tx.set_hash();
        tx
    }

    /// Sets the id to the hash of the transaction's encoding.
    pub fn set_hash(&mut self)
        ensures
            final(self)@ == with_id(old(self)@, transaction_hash(old(self)@)),
    {
        if let Some(tx_ser) = serialize_transaction(self) {
            self.id = hash_to_str(tx_ser.as_slice());
        }
    }

    /// Whether this is a coinbase transaction.
    pub fn is_coinbase(&self) -> (res: bool)
        ensures
            res == is_coinbase_model(self@),
    {
        self.vin.len() == 1 && self.vin[0].pub_key.len() == 0
    }

    /// A copy with every input's signature and public key cleared.
    pub fn trimmed_copy(&self) -> (res: Transaction)
        ensures
            res@ == trimmed(self@),
    {
        let mut inputs: Vec<Txinput> = Vec::new();
        let mut outputs: Vec<Txoutput> = Vec::new();
        let mut i: usize = 0;
        while i < self.vin.len()
            invariant
                i <= self.vin@.len(),
                inputs@.len() == i,
                forall|k: int| 0 <= k < i ==> #[trigger] inputs@[k]@ == trimmed_input(self.vin@[k]@),
            decreases self.vin.len() - i,
        {
            let input = &self.vin[i];
            inputs.push(Txinput::new(input.get_txid(), input.get_vout(), Vec::new()));
            i = i + 1;
        }
        let mut j: usize = 0;
        while j < self.vout.len()
            invariant
                j <= self.vout@.len(),
                outputs@.len() == j,
                forall|k: int| 0 <= k < j ==> #[trigger] outputs@[k]@ == self.vout@[k]@,
            decreases self.vout.len() - j,
        {
            outputs.push(self.vout[j].duplicate());
            j = j + 1;
        }
        let res = Transaction { id: self.id.clone(), vin: inputs, vout: outputs };
        assert(res@.vin =~= trimmed(self@).vin);
        assert(res@.vout =~= self@.vout);
        res
    }

    /// The transaction id.
    pub fn get_id(&self) -> (res: String)
        ensures
            res@ == self@.id,
    {
        self.id.clone()
    }

    /// The outputs.
    pub fn get_vout(&self) -> (res: &[Txoutput])
        ensures
            res@.map_values(|o: Txoutput| o@) == self@.vout,
    {
        self.vout.as_slice()
    }

    /// The inputs.
    pub fn get_vin(&self) -> (res: &[Txinput])
        ensures
            res@.map_values(|i: Txinput| i@) == self@.vin,
    {
        self.vin.as_slice()
    }
}

/// The inputs that spend, with public key `pub_key`, every output index
/// listed in `valid_outputs`, transaction by transaction and in list order.
pub open spec fn spend_inputs(valid_outputs: Seq<(String, Vec<usize>)>, pub_key: Seq<u8>) -> Seq<TxinputModel>
    decreases valid_outputs.len(),
{
    if valid_outputs.len() == 0 {
        Seq::empty()
    } else {
        let last = valid_outputs.last();
        spend_inputs(valid_outputs.drop_last(), pub_key) + last.1@.map_values(
            |idx: usize| TxinputModel { txid: last.0@, vout: idx, signature: Seq::empty(), pub_key },
        )
    }
}

/// The outputs of a payment of `amount` from `from` to `to` out of
/// `accumulated`: the payment, then the change back to `from` if any.
pub open spec fn payment_outputs(from: Seq<char>, to: Seq<char>, amount: i32, accumulated: i32) -> Seq<TxoutputModel> {
    seq![TxoutputModel { value: amount, to_addr: to }] + if accumulated > amount {
        seq![TxoutputModel { value: (accumulated - amount) as i32, to_addr: from }]
    } else {
        Seq::empty()
    }
}

/// The transaction `unsigned_utxo` builds.
pub open spec fn payment_model(
    from: Seq<char>,
    to: Seq<char>,
    amount: i32,
    pub_key: Seq<u8>,
    accumulated: i32,
    valid_outputs: Seq<(String, Vec<usize>)>,
) -> TransactionModel {
    let unhashed = TransactionModel {
        id: Seq::empty(),
        vin: spend_inputs(valid_outputs, pub_key),
        vout: payment_outputs(from, to, amount, accumulated),
    };
    with_id(unhashed, transaction_hash(unhashed))
}

/// The sum of the values of `outputs`.
pub open spec fn total_value(outputs: Seq<TxoutputModel>) -> int
    decreases outputs.len(),
{
    if outputs.len() == 0 {
        0
    } else {
        total_value(outputs.drop_last()) + outputs.last().value
    }
}

/// The index of the first transaction of `txs` whose id is `id`.
pub open spec fn find_tx(txs: Seq<TransactionModel>, id: Seq<char>) -> Option<int>
    decreases txs.len(),
{
    if txs.len() == 0 {
        None
    } else {
        match find_tx(txs.drop_last(), id) {
            Some(k) => Some(k),
            None => if txs.last().id == id {
                Some(txs.len() - 1)
            } else {
                None
            },
        }
    }
}

/// The models of a slice of transactions.
pub open spec fn models(txs: Seq<Transaction>) -> Seq<TransactionModel> {
    txs.map_values(|t: Transaction| t@)
}

/// A found index is in range and names a transaction with the id.
pub proof fn lemma_find_tx_found(txs: Seq<TransactionModel>, id: Seq<char>)
    ensures
        find_tx(txs, id) matches Some(k) ==> 0 <= k < txs.len() && txs[k].id == id,
    decreases txs.len(),
{
    if txs.len() > 0 {
        lemma_find_tx_found(txs.drop_last(), id);
    }
}

/// No transaction with the id: nothing is found.
pub proof fn lemma_find_tx_absent(txs: Seq<TransactionModel>, id: Seq<char>)
    requires
        forall|m: int| 0 <= m < txs.len() ==> txs[m].id != id,
    ensures
        find_tx(txs, id) is None,
    decreases txs.len(),
{
    if txs.len() > 0 {
        let init = txs.drop_last();
        assert forall|m: int| 0 <= m < init.len() implies init[m].id != id by {
            assert(init[m] == txs[m]);
        }
        lemma_find_tx_absent(init, id);
    }
}

/// The first transaction with the id is the one found.
pub proof fn lemma_find_tx_first(txs: Seq<TransactionModel>, id: Seq<char>, k: int)
    requires
        0 <= k < txs.len(),
        txs[k].id == id,
        forall|m: int| 0 <= m < k ==> txs[m].id != id,
    ensures
        find_tx(txs, id) == Some(k),
    decreases txs.len(),
{
    let init = txs.drop_last();
    if k < txs.len() - 1 {
        assert(init[k] == txs[k]);
        assert forall|m: int| 0 <= m < k implies init[m].id != id by {
            assert(init[m] == txs[m]);
        }
        lemma_find_tx_first(init, id, k);
    } else {
        assert forall|m: int| 0 <= m < init.len() implies init[m].id != id by {
            assert(init[m] == txs[m]);
        }
        lemma_find_tx_absent(init, id);
    }
}

/// The index in `txs` of the first transaction whose id is `txid`.
pub fn find_transaction(txs: &[Transaction], txid: &String) -> (res: Option<usize>)
    ensures
        res matches Some(k) ==> find_tx(models(txs@), txid@) == Some(k as int),
        res is None ==> find_tx(models(txs@), txid@) is None,
{
    let mut i: usize = 0;
    while i < txs.len()
        invariant
            i <= txs@.len(),
            forall|m: int| 0 <= m < i ==> txs@[m]@.id != txid@,
        decreases txs.len() - i,
    {
        if txs[i].id == *txid {
            assert(models(txs@)[i as int] == txs@[i as int]@);
            assert(forall|m: int| 0 <= m < i ==> models(txs@)[m] == txs@[m]@);
            proof {
                lemma_find_tx_first(models(txs@), txid@, i as int);
            }
            return Some(i);
        }
        i = i + 1;
    }
    assert(forall|m: int| 0 <= m < txs@.len() ==> models(txs@)[m] == txs@[m]@);
    proof {
        lemma_find_tx_absent(models(txs@), txid@);
    }
    None
}

impl Transaction {
    /// The unsigned transaction paying `amount` from `from` to `to`,
    /// spending the outputs listed in `valid_outputs` (a transaction id with
    /// output indices, as found for the hash of `pub_key`), whose values add up to
    /// `accumulated`. The inputs carry `pub_key`; change goes back to
    /// `from`. The result is hashed; `new_utxo` signs it.
    pub fn unsigned_utxo(
        from: &str,
        to: &str,
        amount: i32,
        pub_key: &[u8],
        accumulated: i32,
        valid_outputs: &[(String, Vec<usize>)],
    ) -> (res: Transaction)
        requires
            amount <= accumulated,
            accumulated - amount <= i32::MAX,
        ensures
            res@ == payment_model(from@, to@, amount, pub_key@, accumulated, valid_outputs@),
            total_value(res@.vout) == accumulated,
    {
        let mut inputs: Vec<Txinput> = Vec::new();
        let mut i: usize = 0;
        while i < valid_outputs.len()
            invariant
                i <= valid_outputs@.len(),
                inputs@.map_values(|x: Txinput| x@) == spend_inputs(valid_outputs@.take(i as int), pub_key@),
            decreases valid_outputs.len() - i,
        {
            let txid = &valid_outputs[i].0;
            let outputs = &valid_outputs[i].1;
            let ghost before = inputs@.map_values(|x: Txinput| x@);
            let mut j: usize = 0;
            while j < outputs.len()
                invariant
                    j <= outputs@.len(),
                    outputs == valid_outputs@[i as int].1,
                    txid == valid_outputs@[i as int].0,
                    inputs@.map_values(|x: Txinput| x@) == before + outputs@.take(j as int).map_values(
                        |idx: usize| TxinputModel { txid: txid@, vout: idx, signature: Seq::empty(), pub_key: pub_key@ },
                    ),
                decreases outputs.len() - j,
            {
                let input = Txinput::new(txid.clone(), outputs[j], vstd::slice::slice_to_vec(pub_key));
                let ghost prev = inputs@.map_values(|x: Txinput| x@);
                inputs.push(input);
                assert(inputs@.map_values(|x: Txinput| x@) =~= prev.push(input@));
                assert(outputs@.take(j as int + 1) =~= outputs@.take(j as int).push(outputs@[j as int]));
                j = j + 1;
                assert(inputs@.map_values(|x: Txinput| x@) =~= before + outputs@.take(j as int).map_values(
                    |idx: usize| TxinputModel { txid: txid@, vout: idx, signature: Seq::empty(), pub_key: pub_key@ },
                ));
            }
            assert(outputs@.take(outputs@.len() as int) =~= outputs@);
            assert(valid_outputs@.take(i as int + 1).drop_last() =~= valid_outputs@.take(i as int));
            i = i + 1;
        }
        assert(valid_outputs@.take(valid_outputs@.len() as int) =~= valid_outputs@);

        let mut outputs: Vec<Txoutput> = Vec::new();
        outputs.push(Txoutput::new(amount, to));
        if accumulated > amount {
            outputs.push(Txoutput::new(accumulated - amount, from));
        }
        let mut tx = Transaction { id: String::new(), vin: inputs, vout: outputs };
        assert(tx@.vout =~= payment_outputs(from@, to@, amount, accumulated));
        proof {
            let outs = payment_outputs(from@, to@, amount, accumulated);
            reveal_with_fuel(total_value, 3);
            if accumulated > amount {
                assert(outs.drop_last() =~= seq![outs[0]]);
                assert(outs.drop_last().drop_last() =~= Seq::<TxoutputModel>::empty());
            } else {
                assert(outs.drop_last() =~= Seq::<TxoutputModel>::empty());
            }
        }
        tx.set_hash();
        tx
    }
}

/// Whether input `k` of `t` names a transaction of `prev` and an output
/// index inside it whose address decodes to a public-key hash.
pub open spec fn input_resolved(t: TransactionModel, prev: Seq<TransactionModel>, k: int) -> bool {
    match find_tx(prev, t.vin[k].txid) {
        Some(j) => t.vin[k].vout < prev[j].vout.len() && address_key_hash(
            prev[j].vout[t.vin[k].vout as int].to_addr,
        ) is Some,
        None => false,
    }
}

/// Whether every input of `t` resolves against `prev`.
pub open spec fn inputs_resolved(t: TransactionModel, prev: Seq<TransactionModel>) -> bool {
    forall|k: int| 0 <= k < t.vin.len() ==> #[trigger] input_resolved(t, prev, k)
}

/// The output that input `k` of `t` spends.
pub open spec fn spent_output(t: TransactionModel, prev: Seq<TransactionModel>, k: int) -> TxoutputModel {
    prev[find_tx(prev, t.vin[k].txid).unwrap()].vout[t.vin[k].vout as int]
}

/// The trimmed copy of `t` with id `id` whose input `k` carries `lock` as
/// its public key.
pub open spec fn signing_copy(t: TransactionModel, id: Seq<char>, k: int, lock: Seq<u8>) -> TransactionModel {
    let c = trimmed(t);
    TransactionModel { id, vin: c.vin.update(k, TxinputModel { pub_key: lock, ..c.vin[k] }), vout: c.vout }
}

/// The id of the signing copy after its first `n` inputs were processed:
/// each step hashes the copy, carrying the public-key hash of the spent
/// output in the step's input, and keeps the hash as the copy's id.
pub open spec fn signing_id(t: TransactionModel, prev: Seq<TransactionModel>, n: nat) -> Seq<char>
    decreases n,
{
    if n == 0 {
        t.id
    } else {
        let k = n - 1;
        transaction_hash(
            signing_copy(
                t,
                signing_id(t, prev, (n - 1) as nat),
                k,
                address_key_hash(spent_output(t, prev, k).to_addr).unwrap(),
            ),
        )
    }
}

/// The message signed for input `k` of `t`: the bytes of the signing id
/// after that input.
pub open spec fn signing_message(t: TransactionModel, prev: Seq<TransactionModel>, k: int) -> Seq<u8> {
    vstd::utf8::encode_utf8(signing_id(t, prev, (k + 1) as nat))
}

/// Whether every signature of `t` checks against its message.
pub open spec fn signatures_valid(t: TransactionModel, prev: Seq<TransactionModel>) -> bool {
    forall|k: int|
        0 <= k < t.vin.len() ==> #[trigger] p256_verifies(
            t.vin[k].pub_key,
            t.vin[k].signature,
            signing_message(t, prev, k),
        )
}

/// The public-key hash that locks the output spent by input `k` of `t`.
pub open spec fn spent_lock(t: TransactionModel, prev: Seq<TransactionModel>, k: int) -> Seq<u8> {
    address_key_hash(spent_output(t, prev, k).to_addr).unwrap()
}

/// The messages of the inputs are chained: the message of input 0 is the
/// hash text, as bytes, of the trimmed copy of `t` that keeps the id of `t`
/// and carries in input 0 the hash locking the output it spends; the
/// message of each later input `k` is the hash text of the trimmed copy
/// whose id is the text of the message of input `k - 1`, carrying in input
/// `k` the hash locking the output that input spends.
pub proof fn lemma_messages_chain(t: TransactionModel, prev: Seq<TransactionModel>, k: int)
    requires
        0 <= k < t.vin.len(),
    ensures
        k == 0 ==> signing_message(t, prev, 0) == vstd::utf8::encode_utf8(
            transaction_hash(signing_copy(t, t.id, 0, spent_lock(t, prev, 0))),
        ),
        k > 0 ==> exists|id: Seq<char>|
            #[trigger] vstd::utf8::encode_utf8(id) == signing_message(t, prev, k - 1)
                && signing_message(t, prev, k) == vstd::utf8::encode_utf8(
                transaction_hash(signing_copy(t, id, k, spent_lock(t, prev, k))),
            ),
{
    if k > 0 {
        let id = signing_id(t, prev, k as nat);
        assert(vstd::utf8::encode_utf8(id) == signing_message(t, prev, k - 1));
    } else {
        assert(signing_id(t, prev, 0) == t.id);
        assert(signing_id(t, prev, 1) == transaction_hash(signing_copy(t, t.id, 0, spent_lock(t, prev, 0))));
    }
}

impl Transaction {
    /// The message that `sign` signs, and `verify` checks, for each input.
    pub fn signing_messages(&self, prev_txs: &[Transaction]) -> (res: Vec<Vec<u8>>)
        requires
            inputs_resolved(self@, models(prev_txs@)),
        ensures
            res@.len() == self@.vin.len(),
            forall|k: int|
                0 <= k < res@.len() ==> #[trigger] res@[k]@ == signing_message(self@, models(prev_txs@), k),
    {
        let ghost prev = models(prev_txs@);
        let mut tx_copy = self.trimmed_copy();
        assert(tx_copy@.vin.len() == tx_copy.vin@.len());
        let mut messages: Vec<Vec<u8>> = Vec::new();
        let mut idx: usize = 0;
        while idx < self.vin.len()
            invariant
                idx <= self.vin@.len(),
                prev == models(prev_txs@),
                inputs_resolved(self@, prev),
                tx_copy@ == with_id(trimmed(self@), signing_id(self@, prev, idx as nat)),
                tx_copy.vin@.len() == self.vin@.len(),
                messages@.len() == idx,
                forall|k: int| 0 <= k < idx ==> #[trigger] messages@[k]@ == signing_message(self@, prev, k),
            decreases self.vin.len() - idx,
        {
            let input = &self.vin[idx];
            assert(self@.vin[idx as int] == input@);
            assert(input_resolved(self@, prev, idx as int));
            proof {
                lemma_find_tx_found(prev, input.txid@);
            }
            let j = match find_transaction(prev_txs, &input.txid) {
                Some(j) => j,
                None => {
                    return messages;
                },
            };
            assert(prev[j as int] == prev_txs@[j as int]@);
            let prev_tx = &prev_txs[j];
            assert(prev_tx@.vout[input.vout as int] == prev_tx.vout@[input.vout as int]@);
            let lock = match prev_tx.vout[input.vout].get_pub_key_hash() {
                Some(h) => h,
                None => {
                    return messages;
                },
            };
            let ghost id_before = tx_copy@.id;
            let ghost vin_before = tx_copy.vin@;
            let ghost lock_bytes = lock@;
            let locked = Txinput::new(input.txid.clone(), input.vout, lock);
            tx_copy.vin[idx] = locked;
            assert(tx_copy.vin@ == vin_before.update(idx as int, locked));
            assert(tx_copy@.vin =~= signing_copy(self@, id_before, idx as int, lock_bytes).vin);
            assert(tx_copy@ =~= signing_copy(self@, id_before, idx as int, lock_bytes));
            tx_copy.set_hash();
            assert(tx_copy@.id == signing_id(self@, prev, idx as nat + 1));
            let ghost vin_locked = tx_copy.vin@;
            let cleared = Txinput::new(input.txid.clone(), input.vout, Vec::new());
            tx_copy.vin[idx] = cleared;
            assert(tx_copy.vin@ == vin_locked.update(idx as int, cleared));
            assert forall|k: int| 0 <= k < tx_copy@.vin.len() implies #[trigger] tx_copy@.vin[k] == trimmed(self@).vin[k] by {
                if k != idx {
                    assert(tx_copy@.vin[k] == vin_locked[k]@);
                    assert(vin_locked.map_values(|x: Txinput| x@)[k] == vin_locked[k]@);
                }
            }
            assert(tx_copy@.vin =~= trimmed(self@).vin);
            messages.push(vstd::slice::slice_to_vec(tx_copy.id.as_str().as_bytes()));
            idx = idx + 1;
        }
        messages
    }

    /// Signs every input with the P-256 key in `pkcs8`, in order; the
    /// signature of input `k` is over `signing_messages(prev_txs)[k]`.
    /// Returns `true` when every input was signed; `false` where the signer
    /// fails, with the inputs before that one signed and the rest as they
    /// were.
    pub fn sign(&mut self, prev_txs: &[Transaction], pkcs8: &[u8]) -> (res: bool)
        requires
            inputs_resolved(old(self)@, models(prev_txs@)),
        ensures
            final(self)@.id == old(self)@.id,
            final(self)@.vout == old(self)@.vout,
            final(self)@.vin.len() == old(self)@.vin.len(),
            forall|k: int|
                0 <= k < old(self)@.vin.len() ==> #[trigger] final(self)@.vin[k] == (TxinputModel {
                    signature: final(self)@.vin[k].signature,
                    ..old(self)@.vin[k]
                }),
            res ==> signed_up_to(old(self)@, final(self)@, old(self)@.vin.len() as int),
            res ==> forall|k: int|
                0 <= k < old(self)@.vin.len() ==> #[trigger] p256_verifies(
                    p256_public_key(pkcs8@),
                    final(self)@.vin[k].signature,
                    signing_message(old(self)@, models(prev_txs@), k),
                ),
            res && (forall|k: int| 0 <= k < old(self)@.vin.len() ==> #[trigger] old(self)@.vin[k].pub_key == p256_public_key(pkcs8@))
                ==> signatures_valid(final(self)@, models(prev_txs@)),
            !res ==> exists|done: int| 0 <= done < old(self)@.vin.len() && #[trigger] signed_up_to(old(self)@, final(self)@, done),
    {
        let messages = self.signing_messages(prev_txs);
        let mut idx: usize = 0;
        while idx < self.vin.len()
            invariant
                messages@.len() == old(self)@.vin.len(),
                self@.id == old(self)@.id,
                self@.vout == old(self)@.vout,
                self@.vin.len() == old(self)@.vin.len(),
                forall|k: int|
                    0 <= k < old(self)@.vin.len() ==> #[trigger] self@.vin[k] == (TxinputModel {
                        signature: self@.vin[k].signature,
                        ..old(self)@.vin[k]
                    }),
                idx <= old(self)@.vin.len(),
                signed_up_to(old(self)@, self@, idx as int),
                forall|k: int| 0 <= k < messages@.len() ==> #[trigger] messages@[k]@ == signing_message(old(self)@, models(prev_txs@), k),
                forall|k: int|
                    0 <= k < idx ==> #[trigger] p256_verifies(
                        p256_public_key(pkcs8@),
                        self@.vin[k].signature,
                        signing_message(old(self)@, models(prev_txs@), k),
                    ),
            decreases self.vin.len() - idx,
        {
            match ecdsa_p256_sha256_sign_digest(pkcs8, messages[idx].as_slice()) {
                Some(signature) => {
                    let ghost before = self@;
                    let ghost vin_before = self.vin@;
                    assert(self@.vin[idx as int] == self.vin@[idx as int]@);
                    let mut input = self.vin[idx].duplicate();
                    input.set_signature(signature);
                    assert(input@ == (TxinputModel { signature: input@.signature, ..old(self)@.vin[idx as int] }));
                    self.vin[idx] = input;
                    assert(self.vin@ == vin_before.update(idx as int, input));
                    assert(self@.vin[idx as int] == input@);
                    assert(self@.vout == before.vout);
                    assert forall|k: int|
                        0 <= k < old(self)@.vin.len() implies #[trigger] self@.vin[k] == (TxinputModel {
                            signature: self@.vin[k].signature,
                            ..old(self)@.vin[k]
                        }) by {
                        if k != idx {
                            assert(self@.vin[k] == before.vin[k]);
                        }
                    }
                    assert forall|k: int| 0 <= k < old(self)@.vin.len() && k != idx implies #[trigger] self@.vin[k] == before.vin[k] by {
                        assert(self@.vin[k] == self.vin@[k]@);
                        assert(before.vin[k] == vin_before[k]@);
                    }
                    assert(signed_up_to(old(self)@, self@, idx as int + 1));
                    assert(messages@[idx as int]@ == signing_message(old(self)@, models(prev_txs@), idx as int));
                    assert forall|k: int|
                        0 <= k < idx + 1 implies #[trigger] p256_verifies(
                            p256_public_key(pkcs8@),
                            self@.vin[k].signature,
                            signing_message(old(self)@, models(prev_txs@), k),
                        ) by {
                        if k < idx {
                            assert(self@.vin[k] == before.vin[k]);
                        }
                    }
                },
                None => {
                    assert(signed_up_to(old(self)@, self@, idx as int));
                    return false;
                },
            }
            idx = idx + 1;
        }
        proof {
            let old_t = old(self)@;
            let new_t = self@;
            let prev = models(prev_txs@);
            assert(same_but_signatures(old_t, new_t));
            if forall|k: int| 0 <= k < old_t.vin.len() ==> #[trigger] old_t.vin[k].pub_key == p256_public_key(pkcs8@) {
                lemma_sign_then_verify(old_t, new_t, prev, pkcs8@);
            }
        }
        true
    }

    /// Whether the transaction is a coinbase, or every input's signature
    /// checks, under the input's public key, against its message.
    pub fn verify(&self, prev_txs: &[Transaction]) -> (res: bool)
        requires
            is_coinbase_model(self@) || inputs_resolved(self@, models(prev_txs@)),
        ensures
            res == (is_coinbase_model(self@) || signatures_valid(self@, models(prev_txs@))),
    {
        if self.is_coinbase() {
            return true;
        }
        let messages = self.signing_messages(prev_txs);
        let mut idx: usize = 0;
        while idx < self.vin.len()
            invariant
                messages@.len() == self@.vin.len(),
                !is_coinbase_model(self@),
                forall|k: int|
                    0 <= k < messages@.len() ==> #[trigger] messages@[k]@ == signing_message(self@, models(prev_txs@), k),
                forall|k: int|
                    0 <= k < idx ==> #[trigger] p256_verifies(
                        self@.vin[k].pub_key,
                        self@.vin[k].signature,
                        signing_message(self@, models(prev_txs@), k),
                    ),
            decreases self.vin.len() - idx,
        {
            let input = &self.vin[idx];
            assert(self@.vin[idx as int] == input@);
            let ok = ecdsa_p256_sha256_sign_verify(
                input.pub_key.as_slice(),
                input.signature.as_slice(),
                messages[idx].as_slice(),
            );
            if !ok {
                assert(messages@[idx as int]@ == signing_message(self@, models(prev_txs@), idx as int));
                assert(!p256_verifies(
                    self@.vin[idx as int].pub_key,
                    self@.vin[idx as int].signature,
                    signing_message(self@, models(prev_txs@), idx as int),
                ));
                return false;
            }
            idx = idx + 1;
        }
        true
    }
}

/// Whether `after` differs from `before` at most in input signatures.
pub open spec fn same_but_signatures(before: TransactionModel, after: TransactionModel) -> bool {
    &&& after.id == before.id
    &&& after.vout == before.vout
    &&& after.vin.len() == before.vin.len()
    &&& forall|k: int|
        0 <= k < before.vin.len() ==> #[trigger] after.vin[k] == (TxinputModel {
            signature: after.vin[k].signature,
            ..before.vin[k]
        })
}

/// Signing does not change what is signed: a transaction that differs only
/// in its signatures has the same trimmed copy, resolves against the same
/// transactions, and has the same signing message for every input.
pub proof fn lemma_signatures_do_not_change_messages(
    before: TransactionModel,
    after: TransactionModel,
    prev: Seq<TransactionModel>,
)
    requires
        same_but_signatures(before, after),
    ensures
        trimmed(after) == trimmed(before),
        inputs_resolved(after, prev) == inputs_resolved(before, prev),
        forall|k: int| 0 <= k < before.vin.len() ==> #[trigger] signing_message(after, prev, k) == signing_message(before, prev, k),
{
    assert(trimmed(after).vin =~= trimmed(before).vin);
    assert(trimmed(after) =~= trimmed(before));
    assert forall|k: int| 0 <= k < before.vin.len() implies #[trigger] input_resolved(after, prev, k) == input_resolved(before, prev, k) by {
        assert(after.vin[k].txid == before.vin[k].txid);
    }
    if inputs_resolved(before, prev) {
        assert forall|k: int| 0 <= k < after.vin.len() implies #[trigger] input_resolved(after, prev, k) by {
            assert(input_resolved(before, prev, k));
        }
    }
    if inputs_resolved(after, prev) {
        assert forall|k: int| 0 <= k < before.vin.len() implies #[trigger] input_resolved(before, prev, k) by {
            assert(input_resolved(after, prev, k));
        }
    }
    assert forall|k: int| 0 <= k < before.vin.len() implies #[trigger] signing_message(after, prev, k) == signing_message(before, prev, k) by {
        lemma_signing_id_ignores_signatures(before, after, prev, (k + 1) as nat);
    }
}

/// The signing ids of two transactions that differ only in signatures agree.
proof fn lemma_signing_id_ignores_signatures(
    before: TransactionModel,
    after: TransactionModel,
    prev: Seq<TransactionModel>,
    n: nat,
)
    requires
        same_but_signatures(before, after),
        n <= before.vin.len(),
    ensures
        signing_id(after, prev, n) == signing_id(before, prev, n),
    decreases n,
{
    if n > 0 {
        lemma_signing_id_ignores_signatures(before, after, prev, (n - 1) as nat);
        let k = n - 1;
        assert(trimmed(after).vin =~= trimmed(before).vin);
        assert(after.vin[k].txid == before.vin[k].txid);
        assert(spent_output(after, prev, k) == spent_output(before, prev, k));
    }
}

/// Trimming a trimmed transaction changes nothing.
pub proof fn lemma_trimmed_idempotent(t: TransactionModel)
    ensures
        trimmed(trimmed(t)) == trimmed(t),
{
    assert(trimmed(trimmed(t)).vin =~= trimmed(t).vin);
    assert(trimmed(trimmed(t)) =~= trimmed(t));
}

/// A coinbase transaction is recognised as one, and pays out exactly the
/// subsidy.
pub proof fn lemma_coinbase_shape(to: Seq<char>)
    ensures
        is_coinbase_model(coinbase_model(to)),
        total_value(coinbase_model(to).vout) == SUBSIDY,
{
    let outs = coinbase_model(to).vout;
    reveal_with_fuel(total_value, 2);
    assert(outs.drop_last() =~= Seq::<TxoutputModel>::empty());
}

impl Transaction {
    /// A transaction made of the given parts.
    pub fn from_parts(id: String, vin: Vec<Txinput>, vout: Vec<Txoutput>) -> (res: Self)
        ensures
            res@ == (TransactionModel {
                id: id@,
                vin: vin@.map_values(|i: Txinput| i@),
                vout: vout@.map_values(|o: Txoutput| o@),
            }),
    {
        Transaction { id, vin, vout }
    }

    /// Whether every input names a transaction of `prev_txs` and an output
    /// index inside it whose address decodes to a public-key hash, as `sign`
    /// and `verify` need.
    pub fn inputs_resolve(&self, prev_txs: &[Transaction]) -> (res: bool)
        ensures
            res == inputs_resolved(self@, models(prev_txs@)),
    {
        let ghost prev = models(prev_txs@);
        let mut k: usize = 0;
        while k < self.vin.len()
            invariant
                k <= self.vin@.len(),
                prev == models(prev_txs@),
                forall|m: int| 0 <= m < k ==> #[trigger] input_resolved(self@, prev, m),
            decreases self.vin.len() - k,
        {
            let input = &self.vin[k];
            assert(self@.vin[k as int] == input@);
            proof {
                lemma_find_tx_found(prev, input.txid@);
            }
            match find_transaction(prev_txs, &input.txid) {
                Some(j) => {
                    assert(prev[j as int] == prev_txs@[j as int]@);
                    if input.vout >= prev_txs[j].vout.len() {
                        assert(!input_resolved(self@, prev, k as int));
                        return false;
                    }
                    assert(prev_txs@[j as int]@.vout[input.vout as int] == prev_txs@[j as int].vout@[input.vout as int]@);
                    if prev_txs[j].vout[input.vout].get_pub_key_hash().is_none() {
                        assert(!input_resolved(self@, prev, k as int));
                        return false;
                    }
                },
                None => {
                    assert(!input_resolved(self@, prev, k as int));
                    return false;
                },
            }
            k = k + 1;
        }
        true
    }
}

/// Whether `after` carries a 64-byte signature in each of its first `done`
/// inputs, and the signatures of `before` in the others.
pub open spec fn signed_up_to(before: TransactionModel, after: TransactionModel, done: int) -> bool {
    &&& forall|k: int| 0 <= k < done ==> (#[trigger] after.vin[k]).signature.len() == 64
    &&& forall|k: int|
        done <= k < before.vin.len() ==> (#[trigger] after.vin[k]).signature == before.vin[k].signature
}

/// Sign, then verify: when every input of `before` carries the public key
/// of `pkcs8` and `after` differs from it only in signatures, each of which
/// verifies over its input's signing message of `before` under that key,
/// every signature of `after` checks (so `verify` accepts `after`).
pub proof fn lemma_sign_then_verify(
    before: TransactionModel,
    after: TransactionModel,
    prev: Seq<TransactionModel>,
    pkcs8: Seq<u8>,
)
    requires
        same_but_signatures(before, after),
        forall|k: int| 0 <= k < before.vin.len() ==> #[trigger] before.vin[k].pub_key == p256_public_key(pkcs8),
        forall|k: int|
            0 <= k < before.vin.len() ==> #[trigger] p256_verifies(
                p256_public_key(pkcs8),
                after.vin[k].signature,
                signing_message(before, prev, k),
            ),
    ensures
        signatures_valid(after, prev),
{
    lemma_signatures_do_not_change_messages(before, after, prev);
    assert forall|k: int| 0 <= k < after.vin.len() implies #[trigger] p256_verifies(
        after.vin[k].pub_key,
        after.vin[k].signature,
        signing_message(after, prev, k),
    ) by {
        assert(after.vin[k].pub_key == before.vin[k].pub_key);
        assert(before.vin[k].pub_key == p256_public_key(pkcs8));
        assert(signing_message(after, prev, k) == signing_message(before, prev, k));
        assert(p256_verifies(p256_public_key(pkcs8), after.vin[k].signature, signing_message(before, prev, k)));
    }
}

/// The unsigned inputs that spend the picked outputs, each carrying
/// `pub_key`.
pub open spec fn pick_inputs(picks: Seq<(Seq<char>, usize)>, pub_key: Seq<u8>) -> Seq<TxinputModel> {
    picks.map_values(
        |p: (Seq<char>, usize)| TxinputModel { txid: p.0, vout: p.1, signature: Seq::empty(), pub_key },
    )
}

/// The transfer `new_utxo` builds before signing: it spends the outputs
/// that `find_spendable_outputs` picks out of `utxos` for the public-key
/// hash of `pub_key`, pays
/// `amount` to `to` and the change back to `from`, and is hashed.
pub open spec fn transfer_model(
    from: Seq<char>,
    to: Seq<char>,
    amount: i32,
    pub_key: Seq<u8>,
    utxos: Seq<UtxoModel>,
) -> TransactionModel {
    let (acc, picks) = spendable_upto(utxos, pub_key_hash(pub_key), amount, utxos.len());
    let unhashed = TransactionModel {
        id: Seq::empty(),
        vin: pick_inputs(picks, pub_key),
        vout: payment_outputs(from, to, amount, acc as i32),
    };
    with_id(unhashed, transaction_hash(unhashed))
}

/// A transfer spends every output `find_spendable_outputs` picks, and no
/// other: there are entries `js` of `utxos`, in table order, each locked to
/// the hash of `pub_key`, such that input `p` of the transfer spends entry
/// `js[p]` and carries `pub_key` and no signature; and when the picked
/// total covers `amount` (with change that fits an `i32`), the outputs of
/// the transfer pay out exactly the sum of the values of the entries spent.
pub proof fn lemma_transfer_spends_picks(
    from: Seq<char>,
    to: Seq<char>,
    amount: i32,
    pub_key: Seq<u8>,
    utxos: Seq<UtxoModel>,
) -> (js: Seq<int>)
    ensures
        transfer_model(from, to, amount, pub_key, utxos).vin.len() == js.len(),
        forall|p: int, q: int| 0 <= p < q < js.len() ==> js[p] < js[q],
        forall|p: int|
            0 <= p < js.len() ==> {
                &&& 0 <= #[trigger] js[p] < utxos.len()
                &&& address_key_hash(utxos[js[p]].2.to_addr) == Some(pub_key_hash(pub_key))
                &&& transfer_model(from, to, amount, pub_key, utxos).vin[p] == (TxinputModel {
                    txid: utxos[js[p]].0,
                    vout: utxos[js[p]].1,
                    signature: Seq::empty(),
                    pub_key,
                })
            },
        amount <= entries_value(utxos, js) <= amount + i32::MAX ==> total_value(
            transfer_model(from, to, amount, pub_key, utxos).vout,
        ) == entries_value(utxos, js),
{
    let h = pub_key_hash(pub_key);
    let js = lemma_picked_entries(utxos, h, amount, utxos.len());
    let (acc, picks) = spendable_upto(utxos, h, amount, utxos.len());
    let t = transfer_model(from, to, amount, pub_key, utxos);
    assert(t.vin == pick_inputs(picks, pub_key));
    assert forall|p: int| 0 <= p < js.len() implies {
        &&& 0 <= #[trigger] js[p] < utxos.len()
        &&& address_key_hash(utxos[js[p]].2.to_addr) == Some(pub_key_hash(pub_key))
        &&& t.vin[p] == (TxinputModel {
            txid: utxos[js[p]].0,
            vout: utxos[js[p]].1,
            signature: Seq::empty(),
            pub_key,
        })
    } by {
        assert(picks[p] == (utxos[js[p]].0, utxos[js[p]].1));
    }
    if amount <= acc <= amount + i32::MAX {
        let outs = payment_outputs(from, to, amount, acc as i32);
        assert(t.vout == outs);
        let first = TxoutputModel { value: amount, to_addr: to };
        assert(total_value(Seq::<TxoutputModel>::empty()) == 0);
        assert(total_value(seq![first]) == amount) by {
            assert(seq![first].drop_last() =~= Seq::<TxoutputModel>::empty());
        }
        if acc > amount {
            let change = TxoutputModel { value: (acc - amount) as i32, to_addr: from };
            assert(outs =~= seq![first, change]);
            assert(outs.drop_last() =~= seq![first]);
            assert(total_value(outs) == amount + (acc - amount));
        } else {
            assert(outs =~= seq![first]);
        }
    }
    js
}

/// Entries that each list one output index spend exactly the picked
/// outputs.
proof fn lemma_single_index_inputs(valid: Seq<(String, Vec<usize>)>, pub_key: Seq<u8>)
    requires
        forall|k: int| 0 <= k < valid.len() ==> (#[trigger] valid[k]).1@.len() == 1,
    ensures
        spend_inputs(valid, pub_key) == pick_inputs(valid.map_values(|p: (String, Vec<usize>)| picked_model(p)), pub_key),
    decreases valid.len(),
{
    if valid.len() > 0 {
        let init = valid.drop_last();
        assert forall|k: int| 0 <= k < init.len() implies (#[trigger] init[k]).1@.len() == 1 by {
            assert(init[k] == valid[k]);
        }
        lemma_single_index_inputs(init, pub_key);
        let last = valid.last();
        assert(last.1@.len() == 1);
        assert(valid.map_values(|p: (String, Vec<usize>)| picked_model(p)) =~= init.map_values(
            |p: (String, Vec<usize>)| picked_model(p),
        ).push(picked_model(last)));
        assert(last.1@.map_values(
            |idx: usize| TxinputModel { txid: last.0@, vout: idx, signature: Seq::empty(), pub_key },
        ) =~= seq![TxinputModel { txid: last.0@, vout: last.1@[0], signature: Seq::empty(), pub_key }]);
        assert(spend_inputs(valid, pub_key) =~= pick_inputs(
            valid.map_values(|p: (String, Vec<usize>)| picked_model(p)),
            pub_key,
        ));
    } else {
        assert(spend_inputs(valid, pub_key) =~= pick_inputs(
            valid.map_values(|p: (String, Vec<usize>)| picked_model(p)),
            pub_key,
        ));
    }
}

impl Transaction {
    /// A signed transfer of `amount` from `from` to `to`: picks outputs of
    /// `utxo_set` locked to the hash of the wallet's public key
    /// (`find_spendable_outputs`), spends them
    /// with inputs carrying the wallet's public key, pays `amount` to `to`
    /// and the change back to `from`, hashes the transaction and signs every
    /// input with the wallet's key against the transactions `prev_txs`.
    /// `None` where the signer fails, which can only happen when there is
    /// at least one input to sign.
    pub fn new_utxo(
        from: &str,
        to: &str,
        amount: i32,
        wallet: &Wallet,
        utxo_set: &[(String, usize, Txoutput)],
        prev_txs: &[Transaction],
    ) -> (res: Option<Transaction>)
        requires
            amount <= spendable_upto(
                utxo_set@.map_values(|u: (String, usize, Txoutput)| utxo_model(u)),
                pub_key_hash(wallet@.public_key),
                amount,
                utxo_set@.len() as nat,
            ).0,
            spendable_upto(
                utxo_set@.map_values(|u: (String, usize, Txoutput)| utxo_model(u)),
                pub_key_hash(wallet@.public_key),
                amount,
                utxo_set@.len() as nat,
            ).0 - amount <= i32::MAX,
            inputs_resolved(
                transfer_model(
                    from@,
                    to@,
                    amount,
                    wallet@.public_key,
                    utxo_set@.map_values(|u: (String, usize, Txoutput)| utxo_model(u)),
                ),
                models(prev_txs@),
            ),
        ensures
            res matches Some(t) ==> same_but_signatures(
                transfer_model(
                    from@,
                    to@,
                    amount,
                    wallet@.public_key,
                    utxo_set@.map_values(|u: (String, usize, Txoutput)| utxo_model(u)),
                ),
                t@,
            ),
            res matches Some(t) ==> signed_up_to(
                transfer_model(
                    from@,
                    to@,
                    amount,
                    wallet@.public_key,
                    utxo_set@.map_values(|u: (String, usize, Txoutput)| utxo_model(u)),
                ),
                t@,
                t@.vin.len() as int,
            ),
            res matches Some(t) ==> signatures_valid(t@, models(prev_txs@)),
            res matches Some(t) ==> (t@.vin.len() > 0 && wallet@.public_key.len() > 0 ==> !is_coinbase_model(t@)),
            res is None ==> transfer_model(
                from@,
                to@,
                amount,
                wallet@.public_key,
                utxo_set@.map_values(|u: (String, usize, Txoutput)| utxo_model(u)),
            ).vin.len() > 0,
    {
        let ghost us = utxo_set@.map_values(|u: (String, usize, Txoutput)| utxo_model(u));
        let pub_key = wallet.get_public_key();
        let key_hash = hash_pub_key(pub_key);
        let (accumulated, valid_outputs) = find_spendable_outputs(utxo_set, key_hash.as_slice(), amount);
        let pkcs8 = wallet.get_pkcs8();
        proof {
            lemma_single_index_inputs(valid_outputs@, pub_key@);
        }
        let mut tx = Transaction::unsigned_utxo(
            from,
            to,
            amount,
            pub_key,
            accumulated,
            valid_outputs.as_slice(),
        );
        assert(tx@.vin =~= transfer_model(from@, to@, amount, wallet@.public_key, us).vin);
        assert(tx@ == transfer_model(from@, to@, amount, wallet@.public_key, us));
        assert(forall|k: int| 0 <= k < tx@.vin.len() ==> #[trigger] tx@.vin[k].pub_key == p256_public_key(pkcs8@));
        if tx.sign(prev_txs, pkcs8) {
            Some(tx)
        } else {
            None
        }
    }
}

} // verus!

//! Unspent outputs: which outputs of a set of transactions no input spends,
//! and which of them pay for a transfer.
use vstd::prelude::*;

use crate::transaction::{address_key_hash, bytes_eq, models, Transaction, TransactionModel, Txoutput, TxoutputModel};

verus! {

/// An unspent output: the id of its transaction, its index there, and the
/// output itself.
pub type UtxoModel = (Seq<char>, usize, TxoutputModel);

/// Whether some input of `txs` spends output `k` of transaction `txid`.
pub open spec fn is_spent(txs: Seq<TransactionModel>, txid: Seq<char>, k: usize) -> bool {
    exists|a: int, b: int|
        0 <= a < txs.len() && 0 <= b < txs[a].vin.len() && #[trigger] txs[a].vin[b].txid == txid
            && txs[a].vin[b].vout == k
}

/// The unspent outputs among the first `n` outputs of `t`, in order.
pub open spec fn unspent_of(txs: Seq<TransactionModel>, t: TransactionModel, n: nat) -> Seq<UtxoModel>
    decreases n,
{
    if n == 0 {
        Seq::empty()
    } else {
        let k = (n - 1) as usize;
        let before = unspent_of(txs, t, (n - 1) as nat);
        if is_spent(txs, t.id, k) {
            before
        } else {
            before.push((t.id, k, t.vout[k as int]))
        }
    }
}

/// The unspent outputs of the first `m` transactions of `txs`, transaction
/// by transaction and output by output.
pub open spec fn unspent_upto(txs: Seq<TransactionModel>, m: nat) -> Seq<UtxoModel>
    decreases m,
{
    if m == 0 {
        Seq::empty()
    } else {
        let t = txs[m - 1];
        unspent_upto(txs, (m - 1) as nat) + unspent_of(txs, t, t.vout.len())
    }
}

/// The model of an unspent-output entry.
pub open spec fn utxo_model(u: (String, usize, Txoutput)) -> UtxoModel {
    (u.0@, u.1, u.2@)
}

/// Whether input `b` of transaction `a` spends output `k` of `txid`, for
/// some input up to `a`, `b` in scan order.
fn spent_in(txs: &[Transaction], txid: &String, k: usize) -> (res: bool)
    ensures
        res == is_spent(models(txs@), txid@, k),
{
    let ghost ms = models(txs@);
    let mut a: usize = 0;
    while a < txs.len()
        invariant
            a <= txs@.len(),
            ms == models(txs@),
            forall|x: int, y: int|
                0 <= x < a && 0 <= y < ms[x].vin.len() ==> !(#[trigger] ms[x].vin[y].txid == txid@
                    && ms[x].vin[y].vout == k),
        decreases txs.len() - a,
    {
        let vin = txs[a].get_vin();
        assert(ms[a as int] == txs@[a as int]@);
        let mut b: usize = 0;
        while b < vin.len()
            invariant
                a < txs@.len(),
                b <= vin@.len(),
                ms == models(txs@),
                ms[a as int] == txs@[a as int]@,
                vin@.map_values(|i: crate::transaction::Txinput| i@) == ms[a as int].vin,
                forall|x: int, y: int|
                    0 <= x < a && 0 <= y < ms[x].vin.len() ==> !(#[trigger] ms[x].vin[y].txid == txid@
                        && ms[x].vin[y].vout == k),
                forall|y: int| 0 <= y < b ==> !(#[trigger] ms[a as int].vin[y].txid == txid@ && ms[a as int].vin[y].vout == k),
            decreases vin.len() - b,
        {
            assert(ms[a as int].vin[b as int] == vin@[b as int]@);
            if vin[b].get_vout() == k && vin[b].get_txid() == *txid {
                assert(ms[a as int].vin[b as int].txid == txid@);
                return true;
            }
            b = b + 1;
        }
        a = a + 1;
    }
    false
}

/// The outputs of `txs` that no input of `txs` spends, with the id of
/// their transaction and their index in it.
pub fn unspent_outputs(txs: &[Transaction]) -> (res: Vec<(String, usize, Txoutput)>)
    ensures
        res@.map_values(|u: (String, usize, Txoutput)| utxo_model(u)) == unspent_upto(models(txs@), txs@.len() as nat),
{
    let ghost ms = models(txs@);
    let mut res: Vec<(String, usize, Txoutput)> = Vec::new();
    let mut m: usize = 0;
    while m < txs.len()
        invariant
            m <= txs@.len(),
            ms == models(txs@),
            res@.map_values(|u: (String, usize, Txoutput)| utxo_model(u)) == unspent_upto(ms, m as nat),
        decreases txs.len() - m,
    {
        let t = &txs[m];
        assert(ms[m as int] == t@);
        let id = t.get_id();
        let vout = t.get_vout();
        let ghost base = res@.map_values(|u: (String, usize, Txoutput)| utxo_model(u));
        let mut k: usize = 0;
        while k < vout.len()
            invariant
                m < txs@.len(),
                k <= vout@.len(),
                ms == models(txs@),
                ms[m as int] == t@,
                id@ == t@.id,
                vout@.map_values(|o: Txoutput| o@) == t@.vout,
                base == unspent_upto(ms, m as nat),
                res@.map_values(|u: (String, usize, Txoutput)| utxo_model(u)) == base + unspent_of(ms, t@, k as nat),
            decreases vout.len() - k,
        {
            let ghost before = res@.map_values(|u: (String, usize, Txoutput)| utxo_model(u));
            assert(t@.vout[k as int] == vout@[k as int]@);
            if !spent_in(txs, &id, k) {
                let entry = (id.clone(), k, vout[k].duplicate());
                res.push(entry);
                assert(res@.map_values(|u: (String, usize, Txoutput)| utxo_model(u)) =~= before.push(utxo_model(entry)));
            }
            k = k + 1;
        }
        assert(vout@.len() == t@.vout.len());
        m = m + 1;
    }
    res
}

/// What `find_spendable_outputs` has picked after the first `n` entries of
/// `utxos`: the accumulated value and the picked (id, index) pairs. An
/// entry is picked while the total is below `amount`, when its address
/// stands for the public-key hash `key_hash` and adding its value stays
/// within `i32`.
pub open spec fn spendable_upto(utxos: Seq<UtxoModel>, key_hash: Seq<u8>, amount: i32, n: nat) -> (int, Seq<(Seq<char>, usize)>)
    decreases n,
{
    if n == 0 {
        (0, Seq::empty())
    } else {
        let (acc, picked) = spendable_upto(utxos, key_hash, amount, (n - 1) as nat);
        let u = utxos[n - 1];
        if address_key_hash(u.2.to_addr) == Some(key_hash) && acc < amount && i32::MIN <= acc + u.2.value <= i32::MAX {
            (acc + u.2.value, picked.push((u.0, u.1)))
        } else {
            (acc, picked)
        }
    }
}

/// The model of a picked entry: an id with the single index picked there.
pub open spec fn picked_model(p: (String, Vec<usize>)) -> (Seq<char>, usize) {
    (p.0@, p.1@[0])
}

/// Picks outputs locked to the public-key hash `pub_key_hash`, in table
/// order, until their values reach `amount`; returns the total picked and,
/// for each picked output, the id of its transaction with its index.
pub fn find_spendable_outputs(utxos: &[(String, usize, Txoutput)], pub_key_hash: &[u8], amount: i32) -> (res: (
    i32,
    Vec<(String, Vec<usize>)>,
))
    ensures
        forall|k: int| 0 <= k < res.1@.len() ==> (#[trigger] res.1@[k]).1@.len() == 1,
        ({
            let (acc, picked) = spendable_upto(
                utxos@.map_values(|u: (String, usize, Txoutput)| utxo_model(u)),
                pub_key_hash@,
                amount,
                utxos@.len() as nat,
            );
            &&& res.0 == acc
            &&& res.1@.map_values(|p: (String, Vec<usize>)| picked_model(p)) == picked
        }),
{
    let ghost us = utxos@.map_values(|u: (String, usize, Txoutput)| utxo_model(u));
    let mut accumulated: i32 = 0;
    let mut picked: Vec<(String, Vec<usize>)> = Vec::new();
    let mut n: usize = 0;
    while n < utxos.len()
        invariant
            n <= utxos@.len(),
            us == utxos@.map_values(|u: (String, usize, Txoutput)| utxo_model(u)),
            forall|k: int| 0 <= k < picked@.len() ==> (#[trigger] picked@[k]).1@.len() == 1,
            spendable_upto(us, pub_key_hash@, amount, n as nat).0 == accumulated,
            spendable_upto(us, pub_key_hash@, amount, n as nat).1 == picked@.map_values(|p: (String, Vec<usize>)| picked_model(p)),
        decreases utxos.len() - n,
    {
        let entry = &utxos[n];
        assert(us[n as int] == utxo_model(*entry));
        let ghost before = picked@.map_values(|p: (String, Vec<usize>)| picked_model(p));
        let locked = match entry.2.get_pub_key_hash() {
            Some(h) => bytes_eq(h.as_slice(), pub_key_hash),
            None => false,
        };
        if locked && accumulated < amount {
            match accumulated.checked_add(entry.2.get_value()) {
                Some(total) => {
                    accumulated = total;
                    let mut idx: Vec<usize> = Vec::new();
                    idx.push(entry.1);
                    let p = (entry.0.clone(), idx);
                    picked.push(p);
                    assert(picked@.map_values(|p: (String, Vec<usize>)| picked_model(p)) =~= before.push(picked_model(p)));
                },
                None => {},
            }
        }
        n = n + 1;
    }
    (accumulated, picked)
}

/// Every output `find_spendable_outputs` picks is an entry of the table
/// locked to the public-key hash.
pub proof fn lemma_picked_are_locked(utxos: Seq<UtxoModel>, key_hash: Seq<u8>, amount: i32, n: nat)
    requires
        n <= utxos.len(),
    ensures
        forall|k: int|
            0 <= k < spendable_upto(utxos, key_hash, amount, n).1.len() ==> exists|j: int|
                0 <= j < n && (#[trigger] spendable_upto(utxos, key_hash, amount, n).1[k]) == (utxos[j].0, utxos[j].1)
                    && address_key_hash(utxos[j].2.to_addr) == Some(key_hash),
    decreases n,
{
    if n > 0 {
        lemma_picked_are_locked(utxos, key_hash, amount, (n - 1) as nat);
        let prev = spendable_upto(utxos, key_hash, amount, (n - 1) as nat).1;
        let cur = spendable_upto(utxos, key_hash, amount, n).1;
        assert forall|k: int| 0 <= k < cur.len() implies exists|j: int|
            0 <= j < n && (#[trigger] cur[k]) == (utxos[j].0, utxos[j].1) && address_key_hash(utxos[j].2.to_addr) == Some(key_hash) by {
            if k < prev.len() {
                assert(cur[k] == prev[k]);
                let j = choose|j: int| 0 <= j < n - 1 && prev[k] == (utxos[j].0, utxos[j].1) && address_key_hash(utxos[j].2.to_addr) == Some(key_hash);
                assert(0 <= j < n && cur[k] == (utxos[j].0, utxos[j].1) && address_key_hash(utxos[j].2.to_addr) == Some(key_hash));
            } else {
                let j = n - 1;
                assert(cur[k] == (utxos[j].0, utxos[j].1));
            }
        }
    }
}

/// Picks are only ever added: what is picked after `m` entries begins
/// what is picked after `n >= m`.
proof fn lemma_picks_grow(utxos: Seq<UtxoModel>, key_hash: Seq<u8>, amount: i32, m: nat, n: nat)
    requires
        m <= n <= utxos.len(),
    ensures
        spendable_upto(utxos, key_hash, amount, m).1.is_prefix_of(spendable_upto(utxos, key_hash, amount, n).1),
    decreases n,
{
    if n > m {
        lemma_picks_grow(utxos, key_hash, amount, m, (n - 1) as nat);
        let a = spendable_upto(utxos, key_hash, amount, m).1;
        let b = spendable_upto(utxos, key_hash, amount, (n - 1) as nat).1;
        let c = spendable_upto(utxos, key_hash, amount, n).1;
        assert(forall|i: int| 0 <= i < a.len() ==> a[i] == b[i]);
        assert(forall|i: int| 0 <= i < b.len() ==> b[i] == c[i]);
    }
}

/// Once the total reaches `amount` nothing more is picked, so a total
/// that ends below `amount` was below it all along.
proof fn lemma_short_all_along(utxos: Seq<UtxoModel>, key_hash: Seq<u8>, amount: i32, j: nat, n: nat)
    requires
        j <= n <= utxos.len(),
        spendable_upto(utxos, key_hash, amount, n).0 < amount,
    ensures
        spendable_upto(utxos, key_hash, amount, j).0 < amount,
    decreases n,
{
    if n > j {
        lemma_short_all_along(utxos, key_hash, amount, j, (n - 1) as nat);
    }
}

/// When the outputs picked fall short of `amount`, every output locked to
/// the public-key hash was picked, save one whose value would have carried the
/// total out of the range of `i32`.
pub proof fn lemma_short_means_all_picked(utxos: Seq<UtxoModel>, key_hash: Seq<u8>, amount: i32, n: nat)
    requires
        n <= utxos.len(),
        spendable_upto(utxos, key_hash, amount, n).0 < amount,
    ensures
        forall|j: int|
            0 <= j < n && address_key_hash((#[trigger] utxos[j]).2.to_addr) == Some(key_hash)
                && i32::MIN <= spendable_upto(utxos, key_hash, amount, j as nat).0 + utxos[j].2.value <= i32::MAX
                ==> spendable_upto(utxos, key_hash, amount, n).1.contains((utxos[j].0, utxos[j].1)),
{
    assert forall|j: int|
        0 <= j < n && address_key_hash((#[trigger] utxos[j]).2.to_addr) == Some(key_hash)
            && i32::MIN <= spendable_upto(utxos, key_hash, amount, j as nat).0 + utxos[j].2.value <= i32::MAX
            implies spendable_upto(utxos, key_hash, amount, n).1.contains((utxos[j].0, utxos[j].1)) by {
        lemma_short_all_along(utxos, key_hash, amount, (j + 1) as nat, n);
        lemma_short_all_along(utxos, key_hash, amount, j as nat, n);
        lemma_picks_grow(utxos, key_hash, amount, (j + 1) as nat, n);
        let before = spendable_upto(utxos, key_hash, amount, j as nat);
        let after = spendable_upto(utxos, key_hash, amount, (j + 1) as nat).1;
        let fin = spendable_upto(utxos, key_hash, amount, n).1;
        assert(before.0 < amount);
        assert(after == before.1.push((utxos[j].0, utxos[j].1)));
        let k = after.len() - 1;
        assert(fin[k] == after[k]);
    }
}

/// The sum of the values of the entries of `utxos` at the indices `js`.
pub open spec fn entries_value(utxos: Seq<UtxoModel>, js: Seq<int>) -> int
    decreases js.len(),
{
    if js.len() == 0 {
        0
    } else {
        entries_value(utxos, js.drop_last()) + utxos[js.last()].2.value
    }
}

/// What `find_spendable_outputs` picks out of the first `n` entries are
/// entries `js` of the table, in table order, each locked to `key_hash`;
/// the total is the sum of their values and stays within `i32`; and each
/// was picked while the total of the entries picked before it was still
/// below `amount`, so nothing is picked once the total reaches `amount`.
/// Nor is an entry skipped: an entry locked to `key_hash` that comes after
/// the first `p` picks and not after the next one, while the total of
/// those `p` picks is below `amount` and adding its value stays within
/// `i32`, is itself the next pick.
pub proof fn lemma_picked_entries(utxos: Seq<UtxoModel>, key_hash: Seq<u8>, amount: i32, n: nat) -> (js: Seq<int>)
    requires
        n <= utxos.len(),
    ensures
        js.len() == spendable_upto(utxos, key_hash, amount, n).1.len(),
        forall|p: int, q: int| 0 <= p < q < js.len() ==> js[p] < js[q],
        forall|p: int|
            0 <= p < js.len() ==> {
                &&& 0 <= #[trigger] js[p] < n
                &&& spendable_upto(utxos, key_hash, amount, n).1[p] == (utxos[js[p]].0, utxos[js[p]].1)
                &&& address_key_hash(utxos[js[p]].2.to_addr) == Some(key_hash)
            },
        spendable_upto(utxos, key_hash, amount, n).0 == entries_value(utxos, js),
        i32::MIN <= spendable_upto(utxos, key_hash, amount, n).0 <= i32::MAX,
        forall|p: int| 0 <= p < js.len() ==> #[trigger] entries_value(utxos, js.take(p)) < amount,
        forall|j: int, p: int|
            #![trigger js.take(p), utxos[j]]
            0 <= j < n && 0 <= p <= js.len() && (p == 0 || js[p - 1] < j) && (p < js.len() ==> j <= js[p])
                && address_key_hash(utxos[j].2.to_addr) == Some(key_hash) && entries_value(utxos, js.take(p))
                < amount && i32::MIN <= entries_value(utxos, js.take(p)) + utxos[j].2.value <= i32::MAX ==> p
                < js.len() && js[p] == j,
    decreases n,
{
    if n == 0 {
        Seq::empty()
    } else {
        let js0 = lemma_picked_entries(utxos, key_hash, amount, (n - 1) as nat);
        let (acc, picks) = spendable_upto(utxos, key_hash, amount, (n - 1) as nat);
        let u = utxos[n - 1];
        if address_key_hash(u.2.to_addr) == Some(key_hash) && acc < amount && i32::MIN <= acc + u.2.value <= i32::MAX {
            let js = js0.push(n - 1);
            assert(js.drop_last() =~= js0);
            assert forall|p: int| 0 <= p < js.len() implies #[trigger] entries_value(utxos, js.take(p)) < amount by {
                if p < js0.len() {
                    assert(js.take(p) =~= js0.take(p));
                } else {
                    assert(js.take(p) =~= js0);
                }
            }
            let cur = spendable_upto(utxos, key_hash, amount, n).1;
            assert(cur == picks.push((u.0, u.1)));
            assert forall|p: int| 0 <= p < js.len() implies {
                &&& 0 <= #[trigger] js[p] < n
                &&& cur[p] == (utxos[js[p]].0, utxos[js[p]].1)
                &&& address_key_hash(utxos[js[p]].2.to_addr) == Some(key_hash)
            } by {
                if p < js0.len() {
                    assert(js[p] == js0[p]);
                    assert(cur[p] == picks[p]);
                }
            }
            assert forall|j: int, p: int|
                #![trigger js.take(p), utxos[j]]
                0 <= j < n && 0 <= p <= js.len() && (p == 0 || js[p - 1] < j) && (p < js.len() ==> j <= js[p])
                    && address_key_hash(utxos[j].2.to_addr) == Some(key_hash) && entries_value(utxos, js.take(p))
                    < amount && i32::MIN <= entries_value(utxos, js.take(p)) + utxos[j].2.value <= i32::MAX implies p < js.len() && js[p] == j by {
                if j < n - 1 {
                    if p <= js0.len() {
                        assert(js.take(p) =~= js0.take(p));
                        if p < js0.len() {
                            assert(js[p] == js0[p]);
                            assert(js0[p - 1] == js[p - 1] || p == 0);
                        } else if p > 0 {
                            assert(js0[p - 1] == js[p - 1]);
                        }
                        assert(p < js0.len() && js0[p] == j);
                    } else {
                        assert(js[p - 1] == n - 1);
                    }
                } else {
                    if p < js0.len() {
                        assert(js[p] == js0[p]);
                        assert(js0[p] < n - 1);
                    } else if p == js.len() {
                        assert(js[p - 1] == n - 1);
                    }
                }
            }
            js
        } else {
            assert forall|j: int, p: int|
                #![trigger js0.take(p), utxos[j]]
                0 <= j < n && 0 <= p <= js0.len() && (p == 0 || js0[p - 1] < j) && (p < js0.len() ==> j <= js0[p])
                    && address_key_hash(utxos[j].2.to_addr) == Some(key_hash) && entries_value(utxos, js0.take(p))
                    < amount && i32::MIN <= entries_value(utxos, js0.take(p)) + utxos[j].2.value <= i32::MAX implies p
                    < js0.len() && js0[p] == j by {
                if j == n - 1 {
                    if p < js0.len() {
                        assert(js0[p] < n - 1);
                    } else {
                        assert(js0.take(p) =~= js0);
                    }
                }
            }
            js0
        }
    }
}

} // verus!

verus! {

/// An element of `a + b` is an element of `a` or of `b`, and back.
proof fn lemma_concat_contains(a: Seq<UtxoModel>, b: Seq<UtxoModel>, e: UtxoModel)
    ensures
        (a + b).contains(e) <==> (a.contains(e) || b.contains(e)),
{
    if a.contains(e) {
        let i = choose|i: int| 0 <= i < a.len() && a[i] == e;
        assert((a + b)[i] == e);
    }
    if b.contains(e) {
        let j = choose|j: int| 0 <= j < b.len() && b[j] == e;
        assert((a + b)[a.len() + j] == e);
    }
    if (a + b).contains(e) {
        let i = choose|i: int| 0 <= i < (a + b).len() && (a + b)[i] == e;
        if i < a.len() {
            assert(a[i] == e);
        } else {
            assert(b[i - a.len()] == e);
        }
    }
}

/// The entries `unspent_of` lists for the first `n` outputs of `t` are the
/// outputs among them that no input spends.
proof fn lemma_unspent_of_members(txs: Seq<TransactionModel>, t: TransactionModel, n: nat)
    requires
        n <= t.vout.len(),
        t.vout.len() <= usize::MAX,
    ensures
        forall|k: int|
            0 <= k < n && !is_spent(txs, t.id, k as usize) ==> #[trigger] unspent_of(txs, t, n).contains(
                (t.id, k as usize, t.vout[k]),
            ),
        forall|e: UtxoModel|
            #[trigger] unspent_of(txs, t, n).contains(e) ==> exists|k: int|
                0 <= k < n && e == (t.id, k as usize, t.vout[k]) && !is_spent(txs, t.id, k as usize),
    decreases n,
{
    if n > 0 {
        lemma_unspent_of_members(txs, t, (n - 1) as nat);
        let before = unspent_of(txs, t, (n - 1) as nat);
        let cur = unspent_of(txs, t, n);
        let x = (t.id, (n - 1) as usize, t.vout[n - 1]);
        if !is_spent(txs, t.id, (n - 1) as usize) {
            assert(cur == before.push(x));
            assert(cur[before.len() as int] == x);
            assert forall|k: int|
                0 <= k < n && !is_spent(txs, t.id, k as usize) implies #[trigger] cur.contains(
                (t.id, k as usize, t.vout[k]),
            ) by {
                if k < n - 1 {
                    assert(before.contains((t.id, k as usize, t.vout[k])));
                    let i = choose|i: int| 0 <= i < before.len() && before[i] == (t.id, k as usize, t.vout[k]);
                    assert(cur[i] == before[i]);
                }
            }
            assert forall|e: UtxoModel| #[trigger] cur.contains(e) implies exists|k: int|
                0 <= k < n && e == (t.id, k as usize, t.vout[k]) && !is_spent(txs, t.id, k as usize) by {
                let i = choose|i: int| 0 <= i < cur.len() && cur[i] == e;
                if i < before.len() {
                    assert(before[i] == e);
                    assert(before.contains(e));
                } else {
                    assert(e == x);
                }
            }
        }
    }
}

/// The entries of `unspent_upto` over the first `m` transactions are the
/// outputs of those transactions that no input spends.
proof fn lemma_unspent_upto_members(txs: Seq<TransactionModel>, m: nat)
    requires
        m <= txs.len(),
        forall|j: int| 0 <= j < txs.len() ==> (#[trigger] txs[j]).vout.len() <= usize::MAX,
    ensures
        forall|i: int, k: int|
            0 <= i < m && 0 <= k < txs[i].vout.len() && !is_spent(txs, txs[i].id, k as usize)
                ==> #[trigger] unspent_upto(txs, m).contains((txs[i].id, k as usize, txs[i].vout[k])),
        forall|e: UtxoModel|
            #[trigger] unspent_upto(txs, m).contains(e) ==> exists|i: int, k: int|
                0 <= i < m && 0 <= k < txs[i].vout.len() && e == (txs[i].id, k as usize, txs[i].vout[k])
                    && !is_spent(txs, txs[i].id, k as usize),
    decreases m,
{
    if m > 0 {
        lemma_unspent_upto_members(txs, (m - 1) as nat);
        let t = txs[m - 1];
        assert(t.vout.len() <= usize::MAX);
        lemma_unspent_of_members(txs, t, t.vout.len());
        let a = unspent_upto(txs, (m - 1) as nat);
        let b = unspent_of(txs, t, t.vout.len());
        assert(unspent_upto(txs, m) == a + b);
        assert forall|i: int, k: int|
            0 <= i < m && 0 <= k < txs[i].vout.len() && !is_spent(txs, txs[i].id, k as usize)
                implies #[trigger] unspent_upto(txs, m).contains((txs[i].id, k as usize, txs[i].vout[k])) by {
            let e = (txs[i].id, k as usize, txs[i].vout[k]);
            lemma_concat_contains(a, b, e);
            if i < m - 1 {
                assert(a.contains(e));
            } else {
                assert(b.contains(e));
            }
        }
        assert forall|e: UtxoModel| #[trigger] unspent_upto(txs, m).contains(e) implies exists|i: int, k: int|
            0 <= i < m && 0 <= k < txs[i].vout.len() && e == (txs[i].id, k as usize, txs[i].vout[k])
                && !is_spent(txs, txs[i].id, k as usize) by {
            lemma_concat_contains(a, b, e);
            if a.contains(e) {
                let (i, k) = choose|i: int, k: int|
                    0 <= i < m - 1 && 0 <= k < txs[i].vout.len() && e == (txs[i].id, k as usize, txs[i].vout[k])
                        && !is_spent(txs, txs[i].id, k as usize);
                assert(0 <= i < m && 0 <= k < txs[i].vout.len() && e == (txs[i].id, k as usize, txs[i].vout[k])
                    && !is_spent(txs, txs[i].id, k as usize));
            } else {
                assert(b.contains(e));
                let k = choose|k: int|
                    0 <= k < t.vout.len() && e == (t.id, k as usize, t.vout[k]) && !is_spent(txs, t.id, k as usize);
                let i = m - 1;
                assert(0 <= i < m && 0 <= k < txs[i].vout.len() && e == (txs[i].id, k as usize, txs[i].vout[k])
                    && !is_spent(txs, txs[i].id, k as usize));
            }
        }
    }
}

/// An output of one of `txs` is unspent exactly when no input of `txs`
/// names both the id of its transaction and its own index: an input that
/// spends another output of the same transaction leaves it unspent.
pub proof fn lemma_unspent_iff_unnamed(txs: Seq<TransactionModel>, i: int, k: int)
    requires
        forall|j: int| 0 <= j < txs.len() ==> (#[trigger] txs[j]).vout.len() <= usize::MAX,
        0 <= i < txs.len(),
        0 <= k < txs[i].vout.len(),
    ensures
        unspent_upto(txs, txs.len()).contains((txs[i].id, k as usize, txs[i].vout[k])) <==> !(exists|a: int, b: int|
            0 <= a < txs.len() && 0 <= b < txs[a].vin.len() && (#[trigger] txs[a].vin[b]).txid == txs[i].id
                && txs[a].vin[b].vout == k),
{
    lemma_unspent_upto_members(txs, txs.len());
    let e = (txs[i].id, k as usize, txs[i].vout[k]);
    if unspent_upto(txs, txs.len()).contains(e) {
        let (i2, k2) = choose|i2: int, k2: int|
            0 <= i2 < txs.len() && 0 <= k2 < txs[i2].vout.len() && e == (txs[i2].id, k2 as usize, txs[i2].vout[k2])
                && !is_spent(txs, txs[i2].id, k2 as usize);
        assert(txs[i2].id == txs[i].id && k2 == k);
        if exists|a: int, b: int|
            0 <= a < txs.len() && 0 <= b < txs[a].vin.len() && (#[trigger] txs[a].vin[b]).txid == txs[i].id
                && txs[a].vin[b].vout == k {
            let (a, b) = choose|a: int, b: int|
                0 <= a < txs.len() && 0 <= b < txs[a].vin.len() && (#[trigger] txs[a].vin[b]).txid == txs[i].id
                    && txs[a].vin[b].vout == k;
            assert(txs[a].vin[b].txid == txs[i].id);
            assert(is_spent(txs, txs[i].id, k as usize));
        }
    } else {
        if !is_spent(txs, txs[i].id, k as usize) {
            assert(unspent_upto(txs, txs.len()).contains(e));
        }
        let (a, b) = choose|a: int, b: int|
            0 <= a < txs.len() && 0 <= b < txs[a].vin.len() && #[trigger] txs[a].vin[b].txid == txs[i].id
                && txs[a].vin[b].vout == k as usize;
        assert(0 <= a < txs.len() && 0 <= b < txs[a].vin.len() && txs[a].vin[b].txid == txs[i].id
            && txs[a].vin[b].vout == k);
    }
}

/// Every entry of the unspent outputs of `txs` is an output of one of
/// `txs`, with that transaction's id and the output's index.
pub proof fn lemma_unspent_entries_are_outputs(txs: Seq<TransactionModel>, e: UtxoModel)
    requires
        forall|j: int| 0 <= j < txs.len() ==> (#[trigger] txs[j]).vout.len() <= usize::MAX,
        unspent_upto(txs, txs.len()).contains(e),
    ensures
        exists|i: int, k: int|
            0 <= i < txs.len() && 0 <= k < txs[i].vout.len() && e == (txs[i].id, k as usize, (
            #[trigger] txs[i].vout[k])),
{
    lemma_unspent_upto_members(txs, txs.len());
}

} // verus!

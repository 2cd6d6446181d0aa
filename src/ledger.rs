//! The transparent ledger: live UTXOs, the balance of each address that ever
//! received an output, and the transparent value pool, kept consistent with
//! each other output by output.

use vstd::prelude::*;
use crate::types::{Address, Height, OutPoint, Output, OutputLocation, Transaction, TransactionLocation, TransactionView, TxHash, Utxo, tx_views};
use crate::store::{AddressBalanceLocation, UtxoEntry, address_value, total_value};

verus! {

/// The balances agree with the UTXOs, and `transparent` is their total:
/// each address has at most one entry, each entry holds the value of the
/// UTXOs paying to its address, and every UTXO's address has an entry.
pub open spec fn ledger_ok(utxos: Seq<UtxoEntry>, balances: Seq<AddressBalanceLocation>, transparent: int) -> bool {
    &&& transparent == total_value(utxos)
    &&& forall|i: int, j: int| 0 <= i < j < balances.len() ==> #[trigger] balances[i].address != #[trigger] balances[j].address
    &&& forall|i: int| 0 <= i < balances.len() ==> #[trigger] balances[i].balance == address_value(utxos, balances[i].address)
    &&& forall|k: int| 0 <= k < utxos.len() ==> exists|i: int| 0 <= i < balances.len() && #[trigger] balances[i].address == (#[trigger] utxos[k]).utxo.output.address
}

/// `entry` is for an address that some output of `created` pays to, at the
/// location of the first such output.
pub open spec fn from_first_output(created: Seq<UtxoEntry>, entry: AddressBalanceLocation) -> bool {
    exists|k: int| #![trigger created[k]]
        0 <= k < created.len() && created[k].utxo.output.address == entry.address
            && created[k].location == entry.location && forall|m: int|
            0 <= m < k ==> created[m].utxo.output.address != entry.address
}

/// Balances are only added to, and each added entry comes from the first
/// output of `created` that pays to its address.
pub open spec fn entries_from_outputs(
    old_b: Seq<AddressBalanceLocation>,
    new_b: Seq<AddressBalanceLocation>,
    created: Seq<UtxoEntry>,
) -> bool {
    &&& balances_extended(old_b, new_b)
    &&& forall|i: int| old_b.len() <= i < new_b.len() ==> from_first_output(created, #[trigger] new_b[i])
}

/// Crediting one more output keeps the added entries tied to their first output.
pub proof fn lemma_entries_step(
    b0: Seq<AddressBalanceLocation>,
    b1: Seq<AddressBalanceLocation>,
    b2: Seq<AddressBalanceLocation>,
    w0: Seq<UtxoEntry>,
    c: Seq<UtxoEntry>,
    e: UtxoEntry,
)
    requires
        entries_from_outputs(b0, b1, c),
        balances_extended(b1, b2),
        b2.len() <= b1.len() + 1,
        b2.len() == b1.len() + 1 ==> {
            &&& b2[b1.len() as int].address == e.utxo.output.address
            &&& b2[b1.len() as int].location == e.location
            &&& forall|k: int| 0 <= k < (w0 + c).len() ==> #[trigger] (w0 + c)[k].utxo.output.address != e.utxo.output.address
        },
    ensures
        entries_from_outputs(b0, b2, c.push(e)),
{
    lemma_balances_extended_trans(b0, b1, b2);
    assert forall|i: int| b0.len() <= i < b2.len() implies from_first_output(c.push(e), #[trigger] b2[i]) by {
        if i < b1.len() {
            assert(b2[i].address == b1[i].address && b2[i].location == b1[i].location);
            assert(from_first_output(c, b1[i]));
            let k = choose|k: int| #![trigger c[k]]
                0 <= k < c.len() && c[k].utxo.output.address == b1[i].address
                    && c[k].location == b1[i].location && forall|m: int|
                    0 <= m < k ==> c[m].utxo.output.address != b1[i].address;
            assert(c.push(e)[k] == c[k]);
            assert forall|m: int| 0 <= m < k implies c.push(e)[m].utxo.output.address != b2[i].address by {
                assert(c.push(e)[m] == c[m]);
            }
        } else {
            let k = c.len() as int;
            assert(c.push(e)[k] == e);
            assert forall|m: int| 0 <= m < k implies c.push(e)[m].utxo.output.address != b2[i].address by {
                assert(c.push(e)[m] == c[m]);
                assert((w0 + c)[w0.len() + m] == c[m]);
            }
        }
    }
}

/// Debiting keeps the added entries tied to their first output.
pub proof fn lemma_entries_keep(
    b0: Seq<AddressBalanceLocation>,
    b1: Seq<AddressBalanceLocation>,
    b2: Seq<AddressBalanceLocation>,
    c: Seq<UtxoEntry>,
)
    requires
        entries_from_outputs(b0, b1, c),
        balances_extended(b1, b2),
        b2.len() == b1.len(),
    ensures
        entries_from_outputs(b0, b2, c),
{
    lemma_balances_extended_trans(b0, b1, b2);
    assert forall|i: int| b0.len() <= i < b2.len() implies from_first_output(c, #[trigger] b2[i]) by {
        assert(b2[i].address == b1[i].address && b2[i].location == b1[i].location);
        assert(from_first_output(c, b1[i]));
    }
}

/// Existing entries keep their address and first location; entries are only added.
pub open spec fn balances_extended(old_b: Seq<AddressBalanceLocation>, new_b: Seq<AddressBalanceLocation>) -> bool {
    &&& new_b.len() >= old_b.len()
    &&& forall|i: int| 0 <= i < old_b.len() ==> (#[trigger] new_b[i]).address == old_b[i].address && new_b[i].location == old_b[i].location
}

/// The index of the first entry of `w` with outpoint `op`.
pub open spec fn first_spend_index(w: Seq<UtxoEntry>, op: OutPoint) -> int {
    choose|k: int| 0 <= k < w.len() && w[k].outpoint == op && forall|j: int| 0 <= j < k ==> w[j].outpoint != op
}

/// Extending balances twice extends them.
pub proof fn lemma_balances_extended_trans(a: Seq<AddressBalanceLocation>, b: Seq<AddressBalanceLocation>, c: Seq<AddressBalanceLocation>)
    requires
        balances_extended(a, b),
        balances_extended(b, c),
    ensures
        balances_extended(a, c),
{
    assert forall|k: int| 0 <= k < a.len() implies #[trigger] c[k].address == a[k].address && c[k].location == a[k].location by {
        assert(b[k].address == a[k].address && b[k].location == a[k].location);
        assert(c[k].address == b[k].address && c[k].location == b[k].location);
    }
}

/// Where some entry has outpoint `op`, a first such entry exists.
#[verifier::spinoff_prover]
pub proof fn lemma_first_spend_exists(w: Seq<UtxoEntry>, op: OutPoint)
    requires
        exists|k: int| 0 <= k < w.len() && w[k].outpoint == op,
    ensures
        exists|k: int| 0 <= k < w.len() && w[k].outpoint == op && forall|j: int| 0 <= j < k ==> w[j].outpoint != op,
    decreases w.len(),
{
    let d = w.drop_last();
    if exists|k: int| 0 <= k < d.len() && d[k].outpoint == op {
        lemma_first_spend_exists(d, op);
        let k = choose|k: int| 0 <= k < d.len() && d[k].outpoint == op && forall|j: int| 0 <= j < k ==> d[j].outpoint != op;
        assert(w[k] == d[k]);
        assert forall|j: int| 0 <= j < k implies w[j].outpoint != op by {
            assert(w[j] == d[j]);
        }
    } else {
        let k = w.len() - 1;
        assert forall|j: int| 0 <= j < k implies w[j].outpoint != op by {
            assert(w[j] == d[j]);
        }
        assert(w[k].outpoint == op) by {
            let m = choose|m: int| 0 <= m < w.len() && w[m].outpoint == op;
            if m < k {
                assert(d[m] == w[m]);
            }
        }
    }
}

/// `w` after spending `op`: its first entry with that outpoint is removed;
/// `None` when there is none.
pub open spec fn spend_one(w: Seq<UtxoEntry>, op: OutPoint) -> Option<Seq<UtxoEntry>> {
    if exists|k: int| 0 <= k < w.len() && w[k].outpoint == op {
        Some(w.remove(first_spend_index(w, op)))
    } else {
        None
    }
}

/// `w` after spending each of `ops` in order; `None` when one is missing.
#[verifier::opaque]
pub open spec fn spend_all(w: Seq<UtxoEntry>, ops: Seq<OutPoint>) -> Option<Seq<UtxoEntry>>
    decreases ops.len(),
{
    if ops.len() == 0 {
        Some(w)
    } else {
        match spend_all(w, ops.drop_last()) {
            Some(v) => spend_one(v, ops.last()),
            None => None,
        }
    }
}

/// The inputs of the first `i` transactions of a block, in order.
#[verifier::opaque]
pub open spec fn block_inputs(txs: Seq<TransactionView>, i: int) -> Seq<OutPoint>
    decreases i,
{
    if i <= 0 {
        Seq::empty()
    } else {
        block_inputs(txs, i - 1) + txs[i - 1].inputs
    }
}

/// The UTXO that output `j` of transaction `i` of the block at `height` creates.
pub open spec fn new_utxo(height: Height, i: int, j: int, hash: TxHash, output: Output) -> UtxoEntry {
    UtxoEntry {
        location: OutputLocation {
            transaction_location: TransactionLocation { height, index: i as usize },
            output_index: j as usize,
        },
        outpoint: OutPoint { hash, index: j as usize },
        utxo: Utxo { output, height, from_coinbase: i == 0 },
    }
}

/// The UTXOs that the first `j` outputs of transaction `i` create.
pub open spec fn tx_new_utxos(height: Height, i: int, hash: TxHash, outputs: Seq<Output>, j: int) -> Seq<UtxoEntry> {
    Seq::new(j as nat, |k: int| new_utxo(height, i, k, hash, outputs[k]))
}

/// The UTXOs that the outputs of the first `i` transactions of a block create, in order.
pub open spec fn block_new_utxos(height: Height, txs: Seq<TransactionView>, hashes: Seq<TxHash>, i: int) -> Seq<UtxoEntry>
    decreases i,
{
    if i <= 0 {
        Seq::empty()
    } else {
        block_new_utxos(height, txs, hashes, i - 1) + tx_new_utxos(height, i - 1, hashes[i - 1], txs[i - 1].outputs, txs[i - 1].outputs.len() as int)
    }
}

/// Spending one more outpoint after a sequence of them.
pub proof fn lemma_spend_all_push(w: Seq<UtxoEntry>, ops: Seq<OutPoint>, op: OutPoint)
    ensures
        spend_all(w, ops.push(op)) == match spend_all(w, ops) {
            Some(v) => spend_one(v, op),
            None => None,
        },
{
    reveal(spend_all);
    assert(ops.push(op).drop_last() =~= ops);
}

/// Spending nothing leaves the UTXOs as they are.
pub proof fn lemma_spend_all_empty(w: Seq<UtxoEntry>)
    ensures
        spend_all(w, Seq::empty()) == Some(w),
{
    reveal(spend_all);
}

/// The inputs of one more transaction.
pub proof fn lemma_block_inputs_step(txs: Seq<TransactionView>, i: int)
    requires
        0 <= i,
    ensures
        block_inputs(txs, i + 1) == block_inputs(txs, i) + txs[i].inputs,
        block_inputs(txs, 0) == Seq::<OutPoint>::empty(),
{
    reveal(block_inputs);
}

/// Once an outpoint is missing, every longer sequence fails too.
pub proof fn lemma_spend_all_stays_none(w: Seq<UtxoEntry>, ops: Seq<OutPoint>, more: Seq<OutPoint>)
    requires
        spend_all(w, ops) is None,
    ensures
        spend_all(w, ops + more) is None,
    decreases more.len(),
{
    reveal(spend_all);
    if more.len() > 0 {
        lemma_spend_all_stays_none(w, ops, more.drop_last());
        assert((ops + more).drop_last() =~= ops + more.drop_last());
    }
}

/// Appending an entry adds its value to the totals it counts in.
pub proof fn lemma_push_values(s: Seq<UtxoEntry>, e: UtxoEntry, a: Address)
    ensures
        total_value(s.push(e)) == total_value(s) + e.utxo.output.value,
        address_value(s.push(e), a) == address_value(s, a) + if e.utxo.output.address == a {
            e.utxo.output.value as int
        } else {
            0
        },
{
    assert(s.push(e).drop_last() =~= s);
}

/// Removing an entry takes its value from the totals it counts in.
pub proof fn lemma_remove_values(s: Seq<UtxoEntry>, k: int, a: Address)
    requires
        0 <= k < s.len(),
    ensures
        total_value(s.remove(k)) == total_value(s) - s[k].utxo.output.value,
        address_value(s.remove(k), a) == address_value(s, a) - if s[k].utxo.output.address == a {
            s[k].utxo.output.value as int
        } else {
            0
        },
    decreases s.len(),
{
    if k == s.len() - 1 {
        assert(s.remove(k) =~= s.drop_last());
    } else {
        lemma_remove_values(s.drop_last(), k, a);
        assert(s.remove(k).drop_last() =~= s.drop_last().remove(k));
        assert(s.remove(k).last() == s.last());
    }
}

/// An address's value lies between zero and the total, which is at most the
/// largest output value times the number of entries.
pub proof fn lemma_value_bounds(s: Seq<UtxoEntry>, a: Address)
    ensures
        0 <= address_value(s, a) <= total_value(s),
        total_value(s) <= s.len() * (u64::MAX as int),
    decreases s.len(),
{
    if s.len() > 0 {
        lemma_value_bounds(s.drop_last(), a);
        let n = s.len() as int;
        assert((n - 1) * (u64::MAX as int) + (u64::MAX as int) == n * (u64::MAX as int)) by (nonlinear_arith);
    }
}

/// The index of the balance entry of `address`, if there is one.
pub fn find_balance(balances: &Vec<AddressBalanceLocation>, address: Address) -> (r: Option<usize>)
    ensures
        r matches Some(i) ==> i < balances@.len() && balances@[i as int].address == address,
        r is None ==> forall|i: int| 0 <= i < balances@.len() ==> balances@[i].address != address,
{
    let mut i: usize = 0;
    while i < balances.len()
        invariant
            i <= balances.len(),
            forall|j: int| 0 <= j < i ==> balances@[j].address != address,
        decreases balances.len() - i,
    {
        if balances[i].address == address {
            return Some(i);
        }
        i = i + 1;
    }
    None
}

/// Adds a new UTXO, crediting its address and the transparent pool. An
/// address seen for the first time gets an entry at this output's location.
pub fn credit(
    utxos: &mut Vec<UtxoEntry>,
    balances: &mut Vec<AddressBalanceLocation>,
    transparent: &mut u128,
    e: UtxoEntry,
)
    requires
        ledger_ok(old(utxos)@, old(balances)@, *old(transparent) as int),
    ensures
        final(utxos)@ == old(utxos)@.push(e),
        ledger_ok(final(utxos)@, final(balances)@, *final(transparent) as int),
        balances_extended(old(balances)@, final(balances)@),
        final(balances)@.len() <= old(balances)@.len() + 1,
        final(balances)@.len() == old(balances)@.len() + 1 ==> {
            &&& final(balances)@[old(balances)@.len() as int].address == e.utxo.output.address
            &&& final(balances)@[old(balances)@.len() as int].location == e.location
            &&& forall|k: int| 0 <= k < old(utxos)@.len() ==> #[trigger] old(utxos)@[k].utxo.output.address != e.utxo.output.address
        },
{
    reveal(ledger_ok);
    let ghost w0 = utxos@;
    let ghost b0 = balances@;
    let a = e.utxo.output.address;
    let v = e.utxo.output.value;
    utxos.push(e);
    let count = utxos.len();
    proof {
        lemma_push_values(w0, e, a);
        lemma_value_bounds(utxos@, a);
        assert(utxos@.len() == count);
        assert(utxos@.len() * (u64::MAX as int) <= (usize::MAX as int) * (u64::MAX as int)) by (nonlinear_arith)
            requires utxos@.len() <= usize::MAX;
        assert((usize::MAX as int) * (u64::MAX as int) <= u128::MAX) by (nonlinear_arith);
        assert forall|x: Address| #[trigger] address_value(utxos@, x) == address_value(w0, x) + if a == x {
            v as int
        } else {
            0
        } by {
            lemma_push_values(w0, e, x);
        }
    }
    *transparent = *transparent + v as u128;
    match find_balance(balances, a) {
        Some(i) => {
            let old_entry = balances[i];
            proof {
                lemma_value_bounds(utxos@, a);
            }
            let entry = AddressBalanceLocation {
                address: a,
                balance: old_entry.balance + v as u128,
                location: old_entry.location,
            };
            balances.set(i, entry);
            assert forall|k: int| 0 <= k < utxos@.len() implies exists|j: int| 0 <= j < balances@.len() && #[trigger] balances@[j].address == (#[trigger] utxos@[k]).utxo.output.address by {
                if k < w0.len() {
                    assert(utxos@[k] == w0[k]);
                    let j = choose|j: int| 0 <= j < b0.len() && b0[j].address == w0[k].utxo.output.address;
                    assert(balances@[j].address == b0[j].address);
                } else {
                    assert(balances@[i as int].address == a);
                }
            }
        },
        None => {
            let entry = AddressBalanceLocation { address: a, balance: v as u128, location: e.location };
            balances.push(entry);
            proof {
                assert forall|k: int| 0 <= k < w0.len() implies w0[k].utxo.output.address != a by {
                    if w0[k].utxo.output.address == a {
                        let j = choose|j: int| 0 <= j < b0.len() && #[trigger] b0[j].address == w0[k].utxo.output.address;
                        assert(b0[j].address != a);
                    }
                }
                lemma_address_value_absent(w0, a);
            }
            assert forall|k: int| 0 <= k < utxos@.len() implies exists|j: int| 0 <= j < balances@.len() && #[trigger] balances@[j].address == (#[trigger] utxos@[k]).utxo.output.address by {
                if k < w0.len() {
                    assert(utxos@[k] == w0[k]);
                    let j = choose|j: int| 0 <= j < b0.len() && b0[j].address == w0[k].utxo.output.address;
                    assert(balances@[j].address == b0[j].address);
                } else {
                    assert(balances@[b0.len() as int].address == a);
                }
            }
        },
    }
}

/// An address that no entry pays to has no value.
pub proof fn lemma_address_value_absent(s: Seq<UtxoEntry>, a: Address)
    requires
        forall|k: int| 0 <= k < s.len() ==> s[k].utxo.output.address != a,
    ensures
        address_value(s, a) == 0,
    decreases s.len(),
{
    if s.len() > 0 {
        assert(s.last() == s[s.len() - 1]);
        lemma_address_value_absent(s.drop_last(), a);
    }
}

/// Spends the first UTXO with outpoint `op`: removes it and debits its
/// address and the transparent pool. Returns false, changing nothing, when
/// no UTXO has that outpoint.
pub fn debit(
    utxos: &mut Vec<UtxoEntry>,
    balances: &mut Vec<AddressBalanceLocation>,
    transparent: &mut u128,
    op: OutPoint,
) -> (found: bool)
    requires
        ledger_ok(old(utxos)@, old(balances)@, *old(transparent) as int),
    ensures
        found == spend_one(old(utxos)@, op) is Some,
        found ==> spend_one(old(utxos)@, op) == Some(final(utxos)@),
        !found ==> final(utxos)@ == old(utxos)@ && final(balances)@ == old(balances)@ && *final(transparent)
            == *old(transparent),
        ledger_ok(final(utxos)@, final(balances)@, *final(transparent) as int),
        balances_extended(old(balances)@, final(balances)@),
        final(balances)@.len() == old(balances)@.len(),
{
    reveal(ledger_ok);
    let ghost w0 = utxos@;
    let ghost b0 = balances@;
    let mut k: usize = 0;
    let mut hit = false;
    while !hit && k < utxos.len()
        invariant
            utxos@ == w0,
            k <= w0.len(),
            hit ==> k < w0.len() && w0[k as int].outpoint == op,
            forall|j: int| 0 <= j < k ==> w0[j].outpoint != op,
        decreases w0.len() - k + if hit { 0int } else { 1int },
    {
        if utxos[k].outpoint == op {
            hit = true;
        } else {
            k = k + 1;
        }
    }
    if !hit {
        assert(!exists|j: int| 0 <= j < w0.len() && w0[j].outpoint == op);
        return false;
    }
    proof {
        assert(w0[k as int].outpoint == op);
        let c = first_spend_index(w0, op);
        assert(0 <= c < w0.len() && w0[c].outpoint == op && forall|j: int| 0 <= j < c ==> w0[j].outpoint != op);
        assert(c == k);
    }
    let e = utxos.remove(k);
    let a = e.utxo.output.address;
    let v = e.utxo.output.value;
    proof {
        lemma_remove_values(w0, k as int, a);
        lemma_value_bounds(utxos@, a);
        assert forall|x: Address| #[trigger] address_value(utxos@, x) == address_value(w0, x) - if a == x {
            v as int
        } else {
            0
        } by {
            lemma_remove_values(w0, k as int, x);
        }
    }
    *transparent = *transparent - v as u128;
    match find_balance(balances, a) {
        Some(i) => {
            let old_entry = balances[i];
            let entry = AddressBalanceLocation {
                address: a,
                balance: old_entry.balance - v as u128,
                location: old_entry.location,
            };
            balances.set(i, entry);
            assert forall|m: int| 0 <= m < utxos@.len() implies exists|j: int| 0 <= j < balances@.len() && #[trigger] balances@[j].address == (#[trigger] utxos@[m]).utxo.output.address by {
                let m0 = if m < k { m } else { m + 1 };
                assert(utxos@[m] == w0[m0]);
                let j = choose|j: int| 0 <= j < b0.len() && #[trigger] b0[j].address == w0[m0].utxo.output.address;
                assert(balances@[j].address == b0[j].address);
            }
        },
        None => {
            proof {
                let j = choose|j: int| 0 <= j < b0.len() && #[trigger] b0[j].address == w0[k as int].utxo.output.address;
                assert(b0[j].address != a);
            }
        },
    }
    true
}

/// Adds the UTXOs that the outputs of `txs` create, in order.
pub fn credit_block_outputs(
    utxos: &mut Vec<UtxoEntry>,
    balances: &mut Vec<AddressBalanceLocation>,
    transparent: &mut u128,
    height: Height,
    txs: &Vec<Transaction>,
    hashes: &Vec<TxHash>,
)
    requires
        ledger_ok(old(utxos)@, old(balances)@, *old(transparent) as int),
        hashes@.len() == txs@.len(),
    ensures
        final(utxos)@ == old(utxos)@ + block_new_utxos(height, tx_views(txs@), hashes@, txs@.len() as int),
        ledger_ok(final(utxos)@, final(balances)@, *final(transparent) as int),
        balances_extended(old(balances)@, final(balances)@),
        entries_from_outputs(old(balances)@, final(balances)@, block_new_utxos(height, tx_views(txs@), hashes@, txs@.len() as int)),
{
    let ghost w0 = utxos@;
    let ghost b0 = balances@;
    let ghost views = tx_views(txs@);
    let mut i: usize = 0;
    assert(balances_extended(b0, b0));
    assert(entries_from_outputs(b0, b0, block_new_utxos(height, views, hashes@, 0)));
    while i < txs.len()
        invariant
            i <= txs@.len(),
            hashes@.len() == txs@.len(),
            views == tx_views(txs@),
            utxos@ == w0 + block_new_utxos(height, views, hashes@, i as int),
            ledger_ok(utxos@, balances@, *transparent as int),
            balances_extended(b0, balances@),
            entries_from_outputs(b0, balances@, block_new_utxos(height, views, hashes@, i as int)),
        decreases txs@.len() - i,
    {
        let outputs = &txs[i].outputs;
        let hash = hashes[i];
        assert(views[i as int].outputs == outputs@);
        let mut j: usize = 0;
        assert(block_new_utxos(height, views, hashes@, i as int) + tx_new_utxos(height, i as int, hash, outputs@, 0) =~= block_new_utxos(height, views, hashes@, i as int));
        while j < outputs.len()
            invariant
                i < txs@.len(),
                hashes@.len() == txs@.len(),
                views == tx_views(txs@),
                outputs@ == views[i as int].outputs,
                hash == hashes@[i as int],
                j <= outputs@.len(),
                utxos@ == w0 + block_new_utxos(height, views, hashes@, i as int) + tx_new_utxos(height, i as int, hash, outputs@, j as int),
                ledger_ok(utxos@, balances@, *transparent as int),
                balances_extended(b0, balances@),
                entries_from_outputs(b0, balances@, block_new_utxos(height, views, hashes@, i as int) + tx_new_utxos(height, i as int, hash, outputs@, j as int)),
            decreases outputs@.len() - j,
        {
            let e = UtxoEntry {
                location: OutputLocation {
                    transaction_location: TransactionLocation { height, index: i },
                    output_index: j,
                },
                outpoint: OutPoint { hash, index: j },
                utxo: Utxo { output: outputs[j], height, from_coinbase: i == 0 },
            };
            assert(e == new_utxo(height, i as int, j as int, hash, outputs@[j as int]));
            let ghost b1 = balances@;
            let ghost c = block_new_utxos(height, views, hashes@, i as int) + tx_new_utxos(height, i as int, hash, outputs@, j as int);
            assert(utxos@ =~= w0 + c);
            credit(utxos, balances, transparent, e);
            proof {
                lemma_entries_step(b0, b1, balances@, w0, c, e);
                assert(c.push(e) =~= block_new_utxos(height, views, hashes@, i as int) + tx_new_utxos(height, i as int, hash, outputs@, j + 1));
            }
            assert(tx_new_utxos(height, i as int, hash, outputs@, j + 1) =~= tx_new_utxos(height, i as int, hash, outputs@, j as int).push(e));
            assert(utxos@ =~= w0 + block_new_utxos(height, views, hashes@, i as int) + tx_new_utxos(height, i as int, hash, outputs@, j + 1));
            assert(balances_extended(b0, balances@)) by {
                assert forall|k: int| 0 <= k < b0.len() implies #[trigger] balances@[k].address == b0[k].address && balances@[k].location == b0[k].location by {
                    assert(b1[k].address == b0[k].address);
                }
            }
            j = j + 1;
        }
        assert(block_new_utxos(height, views, hashes@, i + 1) == block_new_utxos(height, views, hashes@, i as int) + tx_new_utxos(height, i as int, hash, outputs@, outputs@.len() as int));
        i = i + 1;
    }
}

/// Spends the inputs of `txs` in order; returns false at the first input
/// whose output is not unspent.
pub fn debit_block_inputs(
    utxos: &mut Vec<UtxoEntry>,
    balances: &mut Vec<AddressBalanceLocation>,
    transparent: &mut u128,
    txs: &Vec<Transaction>,
) -> (ok: bool)
    requires
        ledger_ok(old(utxos)@, old(balances)@, *old(transparent) as int),
    ensures
        ok == spend_all(old(utxos)@, block_inputs(tx_views(txs@), txs@.len() as int)) is Some,
        ok ==> spend_all(old(utxos)@, block_inputs(tx_views(txs@), txs@.len() as int)) == Some(final(utxos)@),
        ledger_ok(final(utxos)@, final(balances)@, *final(transparent) as int),
        balances_extended(old(balances)@, final(balances)@),
        final(balances)@.len() == old(balances)@.len(),
{
    let ghost w0 = utxos@;
    let ghost b0 = balances@;
    let ghost views = tx_views(txs@);
    assert(views.len() == txs@.len());
    proof {
        lemma_spend_all_empty(w0);
        lemma_block_inputs_step(views, 0);
    }
    let mut ok = true;
    let mut i: usize = 0;
    while ok && i < txs.len()
        invariant
            i <= txs@.len(),
            views == tx_views(txs@),
            views.len() == txs@.len(),
            ok ==> spend_all(w0, block_inputs(views, i as int)) == Some(utxos@),
            !ok ==> spend_all(w0, block_inputs(views, views.len() as int)) is None,
            ledger_ok(utxos@, balances@, *transparent as int),
            balances_extended(b0, balances@),
            balances@.len() == b0.len(),
        decreases txs@.len() - i + if ok { 1int } else { 0int },
    {
        let inputs = &txs[i].inputs;
        assert(views[i as int].inputs == inputs@);
        let mut j: usize = 0;
        while ok && j < inputs.len()
            invariant
                i < txs@.len(),
                views == tx_views(txs@),
                views.len() == txs@.len(),
                inputs@ == views[i as int].inputs,
                j <= inputs@.len(),
                ok ==> spend_all(w0, block_inputs(views, i as int) + inputs@.subrange(0, j as int)) == Some(utxos@),
                !ok ==> spend_all(w0, block_inputs(views, views.len() as int)) is None,
                ledger_ok(utxos@, balances@, *transparent as int),
                balances_extended(b0, balances@),
            balances@.len() == b0.len(),
            decreases inputs@.len() - j + if ok { 1int } else { 0int },
        {
            let op = inputs[j];
            let ghost b1 = balances@;
            let ghost done = block_inputs(views, i as int) + inputs@.subrange(0, j as int);
            proof {
                lemma_spend_all_push(w0, done, op);
                assert(done.push(op) =~= block_inputs(views, i as int) + inputs@.subrange(0, j + 1));
            }
            let found = debit(utxos, balances, transparent, op);
            if found {
                j = j + 1;
            } else {
                proof {
                    lemma_missing_input_fails(w0, views, i as int, j as int);
                }
                ok = false;
            }
            assert(balances_extended(b0, balances@)) by {
                assert forall|k: int| 0 <= k < b0.len() implies #[trigger] balances@[k].address == b0[k].address && balances@[k].location == b0[k].location by {
                    assert(b1[k].address == b0[k].address);
                }
            }
        }
        if ok {
            proof {
                lemma_block_inputs_step(views, i as int);
            }
            assert(block_inputs(views, i as int) + inputs@.subrange(0, inputs@.len() as int) =~= block_inputs(views, i + 1));
            i = i + 1;
        }
    }
    ok
}

/// When spending stops at input `j` of transaction `i`, spending the whole block fails.
pub proof fn lemma_missing_input_fails(w0: Seq<UtxoEntry>, views: Seq<TransactionView>, i: int, j: int)
    requires
        0 <= i < views.len(),
        0 <= j < views[i].inputs.len(),
        spend_all(w0, (block_inputs(views, i) + views[i].inputs.subrange(0, j)).push(views[i].inputs[j])) is None,
    ensures
        spend_all(w0, block_inputs(views, views.len() as int)) is None,
{
    let inputs = views[i].inputs;
    let done = (block_inputs(views, i) + inputs.subrange(0, j)).push(inputs[j]);
    let rest = inputs.subrange(j + 1, inputs.len() as int);
    lemma_spend_all_stays_none(w0, done, rest);
    lemma_block_inputs_step(views, i);
    assert(done + rest =~= block_inputs(views, i + 1));
    lemma_spend_all_stays_none(w0, block_inputs(views, i + 1), block_inputs_tail(views, i + 1));
    lemma_block_inputs_split(views, i + 1);
}

/// The inputs of the transactions from index `i` on.
pub open spec fn block_inputs_tail(txs: Seq<TransactionView>, i: int) -> Seq<OutPoint>
    decreases txs.len() - i,
{
    if i >= txs.len() {
        Seq::empty()
    } else {
        txs[i].inputs + block_inputs_tail(txs, i + 1)
    }
}

/// The inputs of a block split at any transaction index.
pub proof fn lemma_block_inputs_split(txs: Seq<TransactionView>, i: int)
    requires
        0 <= i <= txs.len(),
    ensures
        block_inputs(txs, i) + block_inputs_tail(txs, i) == block_inputs(txs, txs.len() as int),
    decreases txs.len() - i,
{
    if i < txs.len() {
        lemma_block_inputs_split(txs, i + 1);
        lemma_block_inputs_step(txs, i);
        assert(block_inputs(txs, i) + block_inputs_tail(txs, i) =~= block_inputs(txs, i + 1) + block_inputs_tail(txs, i + 1));
    } else {
        assert(block_inputs(txs, i) + block_inputs_tail(txs, i) =~= block_inputs(txs, i));
    }
}

/// Sum of the balances of `b`.
pub open spec fn balance_sum(b: Seq<AddressBalanceLocation>) -> int
    decreases b.len(),
{
    if b.len() == 0 {
        0
    } else {
        balance_sum(b.drop_last()) + b.last().balance
    }
}

/// Sum, over the entries of `b`, of the value that `utxos` pay to each entry's address.
pub open spec fn value_by_entries(utxos: Seq<UtxoEntry>, b: Seq<AddressBalanceLocation>) -> int
    decreases b.len(),
{
    if b.len() == 0 {
        0
    } else {
        value_by_entries(utxos, b.drop_last()) + address_value(utxos, b.last().address)
    }
}

/// Number of entries of `b` for `a`.
pub open spec fn entries_for(b: Seq<AddressBalanceLocation>, a: Address) -> int
    decreases b.len(),
{
    if b.len() == 0 {
        0
    } else {
        entries_for(b.drop_last(), a) + if b.last().address == a {
            1int
        } else {
            0int
        }
    }
}

proof fn lemma_entries_for_unique(b: Seq<AddressBalanceLocation>, a: Address)
    requires
        forall|i: int, j: int| 0 <= i < j < b.len() ==> #[trigger] b[i].address != #[trigger] b[j].address,
    ensures
        (exists|i: int| 0 <= i < b.len() && b[i].address == a) ==> entries_for(b, a) == 1,
        (forall|i: int| 0 <= i < b.len() ==> b[i].address != a) ==> entries_for(b, a) == 0,
    decreases b.len(),
{
    if b.len() > 0 {
        let d = b.drop_last();
        assert forall|i: int, j: int| 0 <= i < j < d.len() implies #[trigger] d[i].address != #[trigger] d[j].address by {
            assert(d[i] == b[i] && d[j] == b[j]);
        }
        lemma_entries_for_unique(d, a);
        if b.last().address == a {
            assert forall|i: int| 0 <= i < d.len() implies d[i].address != a by {
                assert(d[i] == b[i]);
                assert(b[i].address != b[b.len() - 1].address);
            }
        } else {
            if exists|i: int| 0 <= i < b.len() && b[i].address == a {
                let i = choose|i: int| 0 <= i < b.len() && b[i].address == a;
                assert(d[i] == b[i]);
            }
            assert forall|i: int| 0 <= i < d.len() && (forall|k: int| 0 <= k < b.len() ==> b[k].address != a) implies d[i].address != a by {
                assert(d[i] == b[i]);
            }
        }
    }
}

proof fn lemma_value_by_entries_push(u: Seq<UtxoEntry>, e: UtxoEntry, b: Seq<AddressBalanceLocation>)
    ensures
        value_by_entries(u.push(e), b) == value_by_entries(u, b) + e.utxo.output.value * entries_for(b, e.utxo.output.address),
    decreases b.len(),
{
    if b.len() > 0 {
        lemma_value_by_entries_push(u, e, b.drop_last());
        lemma_push_values(u, e, b.last().address);
        let v = e.utxo.output.value as int;
        let c = entries_for(b.drop_last(), e.utxo.output.address);
        assert(v * c + (if b.last().address == e.utxo.output.address { v } else { 0 }) == v * (c + if b.last().address == e.utxo.output.address { 1int } else { 0int })) by (nonlinear_arith);
    }
}

proof fn lemma_value_by_entries_total(u: Seq<UtxoEntry>, b: Seq<AddressBalanceLocation>)
    requires
        forall|i: int, j: int| 0 <= i < j < b.len() ==> #[trigger] b[i].address != #[trigger] b[j].address,
        forall|k: int| 0 <= k < u.len() ==> exists|i: int| 0 <= i < b.len() && #[trigger] b[i].address == (#[trigger] u[k]).utxo.output.address,
    ensures
        value_by_entries(u, b) == total_value(u),
    decreases u.len(),
{
    if u.len() == 0 {
        lemma_value_by_entries_empty(u, b);
    } else {
        let d = u.drop_last();
        let e = u.last();
        assert forall|k: int| 0 <= k < d.len() implies exists|i: int| 0 <= i < b.len() && #[trigger] b[i].address == (#[trigger] d[k]).utxo.output.address by {
            assert(d[k] == u[k]);
        }
        lemma_value_by_entries_total(d, b);
        assert(d.push(e) =~= u);
        lemma_value_by_entries_push(d, e, b);
        assert(u[u.len() - 1] == e);
        let i = choose|i: int| 0 <= i < b.len() && #[trigger] b[i].address == u[u.len() - 1].utxo.output.address;
        lemma_entries_for_unique(b, e.utxo.output.address);
    }
}

proof fn lemma_value_by_entries_empty(u: Seq<UtxoEntry>, b: Seq<AddressBalanceLocation>)
    requires
        u.len() == 0,
    ensures
        value_by_entries(u, b) == 0,
    decreases b.len(),
{
    if b.len() > 0 {
        lemma_value_by_entries_empty(u, b.drop_last());
    }
}

proof fn lemma_balance_sum_is_value_by_entries(u: Seq<UtxoEntry>, b: Seq<AddressBalanceLocation>)
    requires
        forall|i: int| 0 <= i < b.len() ==> #[trigger] b[i].balance == address_value(u, b[i].address),
    ensures
        balance_sum(b) == value_by_entries(u, b),
    decreases b.len(),
{
    if b.len() > 0 {
        let d = b.drop_last();
        assert forall|i: int| 0 <= i < d.len() implies #[trigger] d[i].balance == address_value(u, d[i].address) by {
            assert(d[i] == b[i]);
        }
        lemma_balance_sum_is_value_by_entries(u, d);
        assert(b[b.len() - 1] == b.last());
    }
}

/// Where the ledger is consistent, the balances of all addresses sum to the
/// value of all live UTXOs, which is the transparent pool.
pub proof fn lemma_balances_sum_to_utxo_total(utxos: Seq<UtxoEntry>, balances: Seq<AddressBalanceLocation>, transparent: int)
    requires
        ledger_ok(utxos, balances, transparent),
    ensures
        balance_sum(balances) == total_value(utxos),
        total_value(utxos) == transparent,
{
    reveal(ledger_ok);
    lemma_balance_sum_is_value_by_entries(utxos, balances);
    lemma_value_by_entries_total(utxos, balances);
}

} // verus!

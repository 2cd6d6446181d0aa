//! The finalized store: the canonical best chain and its derived indexes,
//! held as column families that one atomic batch per block updates.
//!
//! Heights are dense, so every column keyed by height is a vector indexed by
//! height, and every column keyed by transaction location is a vector of
//! vectors. Lookups by hash search those columns.

use vstd::prelude::*;
use crate::types::{
    Address, BlockHash, Block, HashOrHeight, Header, Height, NoteCommitment, NoteCommitmentTree, NoteCommitmentTrees,
    OutPoint, OutputLocation, Pool, Transaction, TransactionLocation, TransactionView, TxHash, Utxo,
    ValueBalance, VerifiedBlock, copy_transactions, pre_genesis_hash, spec_pre_genesis_hash, tx_views,
};
use crate::ledger::{
    balances_extended, entries_from_outputs, block_inputs, block_new_utxos, credit_block_outputs, debit_block_inputs,
    ledger_ok, spend_all,
};

verus! {

/// One live entry of the UTXO columns: its location, its outpoint, and the output.
#[derive(Clone, Copy, Debug, PartialEq, Eq, Structural)]
pub struct UtxoEntry {
    pub location: OutputLocation,
    pub outpoint: OutPoint,
    pub utxo: Utxo,
}

/// The aggregate balance of an address, and the first output that paid to it.
#[derive(Clone, Copy, Debug, PartialEq, Eq, Structural)]
pub struct AddressBalanceLocation {
    pub address: Address,
    pub balance: u128,
    pub location: OutputLocation,
}

/// Why a block was not written.
#[derive(Clone, Copy, Debug, PartialEq, Eq, Structural)]
pub enum WriteError {
    /// The block's height is not the next height of the store.
    WrongHeight,
    /// The block's previous hash is not the tip hash (or, for the genesis
    /// block, the all-zeros hash).
    WrongParent,
    /// The block's hash is the all-zeros hash, which stands before the
    /// genesis block and so never names a stored block.
    ReservedHash,
    /// The block's hash is already stored.
    DuplicateBlock,
    /// The block has not exactly one hash per transaction.
    TransactionHashCountMismatch,
    /// A transaction hash of the block repeats within it or is already stored.
    DuplicateTransaction,
}

/// The leaves that `tx` adds to `pool`.
pub open spec fn tx_notes(tx: TransactionView, pool: Pool) -> Seq<NoteCommitment> {
    match pool {
        Pool::Sprout => tx.sprout_notes,
        Pool::Sapling => tx.sapling_notes,
        Pool::Orchard => tx.orchard_notes,
    }
}

/// The leaves that the first `i` transactions of a block add to `pool`, in order.
pub open spec fn block_notes_upto(txs: Seq<TransactionView>, i: int, pool: Pool) -> Seq<NoteCommitment>
    decreases i,
{
    if i <= 0 {
        Seq::empty()
    } else {
        block_notes_upto(txs, i - 1, pool) + tx_notes(txs[i - 1], pool)
    }
}

/// The leaves that a block's transactions add to `pool`, in order.
pub open spec fn block_notes(txs: Seq<TransactionView>, pool: Pool) -> Seq<NoteCommitment> {
    block_notes_upto(txs, txs.len() as int, pool)
}

/// The net flow of `tx` into the shielded `pool`.
pub open spec fn tx_delta(tx: TransactionView, pool: Pool) -> int {
    match pool {
        Pool::Sprout => tx.sprout_value_delta as int,
        Pool::Sapling => tx.sapling_value_delta as int,
        Pool::Orchard => tx.orchard_value_delta as int,
    }
}

/// The net flow of the first `i` transactions of a block into `pool`.
pub open spec fn block_delta_upto(txs: Seq<TransactionView>, i: int, pool: Pool) -> int
    decreases i,
{
    if i <= 0 {
        0
    } else {
        block_delta_upto(txs, i - 1, pool) + tx_delta(txs[i - 1], pool)
    }
}

/// The net flow of a block's transactions into `pool`.
pub open spec fn block_delta(txs: Seq<TransactionView>, pool: Pool) -> int {
    block_delta_upto(txs, txs.len() as int, pool)
}

/// The running total of a shielded pool.
pub open spec fn pool_total(v: ValueBalance, pool: Pool) -> int {
    match pool {
        Pool::Sprout => v.sprout as int,
        Pool::Sapling => v.sapling as int,
        Pool::Orchard => v.orchard as int,
    }
}

/// The leaves that `tx` adds to `pool`.
fn tx_notes_of(tx: &Transaction, pool: Pool) -> (r: &Vec<NoteCommitment>)
    ensures
        r@ == tx_notes(tx@, pool),
{
    match pool {
        Pool::Sprout => &tx.sprout_notes,
        Pool::Sapling => &tx.sapling_notes,
        Pool::Orchard => &tx.orchard_notes,
    }
}

/// The tree `prev` with the leaves of `txs` in `pool` appended.
pub fn append_notes(prev: &NoteCommitmentTree, txs: &Vec<Transaction>, pool: Pool) -> (r: NoteCommitmentTree)
    ensures
        r.leaves@ == prev.leaves@ + block_notes(tx_views(txs@), pool),
{
    let ghost views = tx_views(txs@);
    let mut leaves = prev.leaves.clone();
    let mut i: usize = 0;
    while i < txs.len()
        invariant
            i <= txs@.len(),
            views == tx_views(txs@),
            leaves@ == prev.leaves@ + block_notes_upto(views, i as int, pool),
        decreases txs@.len() - i,
    {
        let notes = tx_notes_of(&txs[i], pool);
        assert(views[i as int] == txs@[i as int]@);
        let mut j: usize = 0;
        while j < notes.len()
            invariant
                i < txs@.len(),
                views == tx_views(txs@),
                notes@ == tx_notes(views[i as int], pool),
                j <= notes@.len(),
                leaves@ == prev.leaves@ + block_notes_upto(views, i as int, pool) + notes@.subrange(0, j as int),
            decreases notes@.len() - j,
        {
            leaves.push(notes[j]);
            assert(leaves@ =~= prev.leaves@ + block_notes_upto(views, i as int, pool) + notes@.subrange(0, j + 1));
            j = j + 1;
        }
        assert(leaves@ =~= prev.leaves@ + block_notes_upto(views, i + 1, pool));
        i = i + 1;
    }
    assert(views.len() == txs@.len());
    NoteCommitmentTree { leaves }
}

/// The shielded `pool` total after the flows of `txs`; `None` when it would
/// be negative or overflow.
pub fn apply_pool_delta(total: u128, txs: &Vec<Transaction>, pool: Pool) -> (r: Option<u128>)
    ensures
        match r {
            Some(v) => v == total + block_delta(tx_views(txs@), pool),
            None => !(0 <= total + block_delta(tx_views(txs@), pool) <= u128::MAX),
        },
{
    let ghost views = tx_views(txs@);
    let mut acc: i128 = 0;
    let mut i: usize = 0;
    let n = txs.len();
    while i < n
        invariant
            n == txs@.len(),
            i <= n,
            views == tx_views(txs@),
            acc == block_delta_upto(views, i as int, pool),
            -(i as int) * 0x8000_0000_0000_0000 <= acc <= (i as int) * 0x8000_0000_0000_0000,
        decreases n - i,
    {
        let tx = &txs[i];
        assert(views[i as int] == tx@);
        let d: i64 = match pool {
            Pool::Sprout => tx.sprout_value_delta,
            Pool::Sapling => tx.sapling_value_delta,
            Pool::Orchard => tx.orchard_value_delta,
        };
        proof {
            let k = i as int;
            assert((k + 1) * 0x8000_0000_0000_0000 <= 0xFFFF_FFFF_FFFF_FFFF * 0x8000_0000_0000_0000) by (nonlinear_arith)
                requires k + 1 <= 0xFFFF_FFFF_FFFF_FFFF;
            assert(k * 0x8000_0000_0000_0000 + 0x8000_0000_0000_0000 == (k + 1) * 0x8000_0000_0000_0000) by (nonlinear_arith);
        }
        acc = acc + d as i128;
        i = i + 1;
    }
    assert(views.len() == n);
    if acc < 0 {
        let neg = (-acc) as u128;
        if total >= neg {
            Some(total - neg)
        } else {
            None
        }
    } else {
        let pos = acc as u128;
        if total <= u128::MAX - pos {
            Some(total + pos)
        } else {
            None
        }
    }
}

/// Total value of the outputs in `utxos`.
pub open spec fn total_value(utxos: Seq<UtxoEntry>) -> int
    decreases utxos.len(),
{
    if utxos.len() == 0 {
        0
    } else {
        total_value(utxos.drop_last()) + utxos.last().utxo.output.value
    }
}

/// Total value of the outputs in `utxos` that pay to `address`.
pub open spec fn address_value(utxos: Seq<UtxoEntry>, address: Address) -> int
    decreases utxos.len(),
{
    if utxos.len() == 0 {
        0
    } else {
        address_value(utxos.drop_last(), address) + if utxos.last().utxo.output.address == address {
            utxos.last().utxo.output.value as int
        } else {
            0
        }
    }
}

/// Every UTXO was created below height `n`, at the height its location names.
pub open spec fn utxos_below(s: Seq<UtxoEntry>, n: int) -> bool {
    forall|k: int| 0 <= k < s.len() ==> {
        let e = #[trigger] s[k];
        &&& e.utxo.height < n
        &&& e.location.transaction_location.height == e.utxo.height
    }
}

/// Spending keeps every remaining UTXO's creation height.
pub proof fn lemma_spend_all_below(w: Seq<UtxoEntry>, ops: Seq<OutPoint>, n: int)
    requires
        utxos_below(w, n),
        spend_all(w, ops) is Some,
    ensures
        utxos_below(spend_all(w, ops)->0, n),
    decreases ops.len(),
{
    reveal(spend_all);
    if ops.len() > 0 {
        lemma_spend_all_below(w, ops.drop_last(), n);
        let v = spend_all(w, ops.drop_last())->0;
        let r = spend_all(w, ops)->0;
        crate::ledger::lemma_first_spend_exists(v, ops.last());
        let i = crate::ledger::first_spend_index(v, ops.last());
        assert(r == v.remove(i));
        assert forall|k: int| 0 <= k < r.len() implies #[trigger] r[k].utxo.height < n && r[k].location.transaction_location.height == r[k].utxo.height by {
            if k < i {
                assert(r[k] == v[k]);
            } else {
                assert(r[k] == v[k + 1]);
            }
        }
    }
}

/// The outputs of a block at `height` create UTXOs at that height.
pub proof fn lemma_new_utxos_below(height: Height, txs: Seq<TransactionView>, hashes: Seq<TxHash>, i: int)
    ensures
        utxos_below(block_new_utxos(height, txs, hashes, i), height + 1),
    decreases i,
{
    if i > 0 {
        lemma_new_utxos_below(height, txs, hashes, i - 1);
        let a = block_new_utxos(height, txs, hashes, i - 1);
        let b = crate::ledger::tx_new_utxos(height, i - 1, hashes[i - 1], txs[i - 1].outputs, txs[i - 1].outputs.len() as int);
        assert forall|k: int| 0 <= k < (a + b).len() implies #[trigger] (a + b)[k].utxo.height < height + 1 && (a + b)[k].location.transaction_location.height == (a + b)[k].utxo.height by {
            if k < a.len() {
                assert((a + b)[k] == a[k]);
            } else {
                assert((a + b)[k] == b[k - a.len()]);
            }
        }
    }
}

/// The finalized state.
pub struct ZebraDb {
    hash_by_height: Vec<BlockHash>,
    block_header_by_height: Vec<Header>,
    tx_by_loc: Vec<Vec<Transaction>>,
    hash_by_tx_loc: Vec<Vec<TxHash>>,
    sprout_note_commitment_tree: Vec<NoteCommitmentTree>,
    sapling_note_commitment_tree: Vec<NoteCommitmentTree>,
    orchard_note_commitment_tree: Vec<NoteCommitmentTree>,
    utxo_by_out_loc: Vec<UtxoEntry>,
    balance_by_address: Vec<AddressBalanceLocation>,
    value_pool: ValueBalance,
}

impl ZebraDb {
    /// Number of stored blocks: the heights `0..count()` are stored.
    pub open spec fn count(&self) -> nat {
        self.hashes().len()
    }

    /// The block hashes, by height.
    pub closed spec fn hashes(&self) -> Seq<BlockHash> {
        self.hash_by_height@
    }

    /// The block headers, by height.
    pub closed spec fn headers(&self) -> Seq<Header> {
        self.block_header_by_height@
    }

    /// The transactions of the block at height `h`, by index.
    pub closed spec fn txs_at(&self, h: int) -> Seq<TransactionView> {
        tx_views(self.tx_by_loc@[h]@)
    }

    /// The transaction hashes of the block at height `h`, by index.
    pub closed spec fn tx_hashes_at(&self, h: int) -> Seq<TxHash> {
        self.hash_by_tx_loc@[h]@
    }

    /// The leaves of the note commitment tree of `pool` at height `h`.
    pub closed spec fn tree_at(&self, pool: Pool, h: int) -> Seq<NoteCommitment> {
        match pool {
            Pool::Sprout => self.sprout_note_commitment_tree@[h].leaves@,
            Pool::Sapling => self.sapling_note_commitment_tree@[h].leaves@,
            Pool::Orchard => self.orchard_note_commitment_tree@[h].leaves@,
        }
    }

    /// The live UTXOs.
    pub closed spec fn utxos(&self) -> Seq<UtxoEntry> {
        self.utxo_by_out_loc@
    }

    /// The address balances.
    pub closed spec fn balances(&self) -> Seq<AddressBalanceLocation> {
        self.balance_by_address@
    }

    /// The value pools.
    pub closed spec fn pool(&self) -> ValueBalance {
        self.value_pool
    }

    /// The height of the block with hash `hash`, if it is stored.
    pub open spec fn height_of(&self, hash: BlockHash) -> Option<Height> {
        if self.hashes().contains(hash) {
            Some((choose|i: int| 0 <= i < self.hashes().len() && self.hashes()[i] == hash) as Height)
        } else {
            None
        }
    }

    /// The height that `hash_or_height` names: a height as it is, a hash
    /// through the height index.
    pub open spec fn resolve(&self, hash_or_height: HashOrHeight) -> Option<Height> {
        match hash_or_height {
            HashOrHeight::Height(h) => Some(h),
            HashOrHeight::Hash(x) => self.height_of(x),
        }
    }

    /// The stored height that `hash_or_height` names, if any.
    pub open spec fn stored_height(&self, hash_or_height: HashOrHeight) -> Option<Height> {
        match self.resolve(hash_or_height) {
            Some(h) => if h < self.count() {
                Some(h)
            } else {
                None
            },
            None => None,
        }
    }

    /// Whether `location` names a stored transaction.
    pub open spec fn valid_tx_location(&self, location: TransactionLocation) -> bool {
        &&& location.height < self.count()
        &&& location.index < self.tx_hashes_at(location.height as int).len()
    }

    /// The hash of the stored transaction at `location`.
    pub open spec fn tx_hash_at(&self, location: TransactionLocation) -> TxHash {
        self.tx_hashes_at(location.height as int)[location.index as int]
    }

    /// Whether some stored transaction has hash `hash`.
    pub open spec fn tx_hash_stored(&self, hash: TxHash) -> bool {
        exists|l: TransactionLocation| #[trigger] self.valid_tx_location(l) && self.tx_hash_at(l) == hash
    }

    /// The invariants of the store: one header and one hash per stored
    /// height, block hashes distinct and never the all-zeros hash, one hash
    /// per stored transaction, transaction hashes distinct across the chain,
    /// and the invariants of the other columns.
    pub open spec fn wf(&self) -> bool {
        &&& self.count() <= u32::MAX + 1
        &&& self.headers().len() == self.count()
        &&& self.hashes().no_duplicates()
        &&& !self.hashes().contains(spec_pre_genesis_hash())
        &&& forall|h: int| 0 <= h < self.count() ==> #[trigger] self.tx_hashes_at(h).len() == self.txs_at(h).len()
        &&& forall|l1: TransactionLocation, l2: TransactionLocation| #![trigger self.tx_hash_at(l1), self.tx_hash_at(l2)]
            self.valid_tx_location(l1) && self.valid_tx_location(l2) && self.tx_hash_at(l1) == self.tx_hash_at(l2) ==> l1 == l2
        &&& self.columns_ok()
    }

    /// The invariants of the column families.
    pub closed spec fn columns_ok(&self) -> bool {
        let n = self.hash_by_height@.len();
        &&& n <= u32::MAX + 1
        &&& self.block_header_by_height@.len() == n
        &&& self.tx_by_loc@.len() == n
        &&& self.hash_by_tx_loc@.len() == n
        &&& self.sprout_note_commitment_tree@.len() == n
        &&& self.sapling_note_commitment_tree@.len() == n
        &&& self.orchard_note_commitment_tree@.len() == n
        &&& self.hash_by_height@.no_duplicates()
        &&& forall|h: int| 0 <= h < n ==> #[trigger] self.hash_by_tx_loc@[h]@.len() == self.tx_by_loc@[h]@.len()
        &&& n > 0 ==> self.block_header_by_height@[0].previous_block_hash == spec_pre_genesis_hash()
        &&& forall|h: int| 0 < h < n ==> #[trigger] self.block_header_by_height@[h].previous_block_hash == self.hash_by_height@[h - 1]
        &&& forall|p: Pool| n > 0 ==> #[trigger] self.tree_at(p, 0) == Seq::<NoteCommitment>::empty()
        &&& forall|p: Pool, h: int| 0 < h < n ==> #[trigger] self.tree_at(p, h) == self.tree_at(p, h - 1) + block_notes(self.txs_at(h), p)
        &&& utxos_below(self.utxo_by_out_loc@, n as int)
        &&& n <= 1 ==> self.utxo_by_out_loc@.len() == 0 && self.value_pool == ValueBalance::spec_zero()
        &&& ledger_ok(self.utxo_by_out_loc@, self.balance_by_address@, self.value_pool.transparent as int)
    }

    /// An empty store.
    pub fn new() -> (r: Self)
        ensures
            r.wf(),
            r.count() == 0,
            r.hashes() == Seq::<BlockHash>::empty(),
            r.headers() == Seq::<Header>::empty(),
            r.utxos() == Seq::<UtxoEntry>::empty(),
            r.balances() == Seq::<AddressBalanceLocation>::empty(),
            r.pool() == ValueBalance::spec_zero(),
    {
        proof {
            reveal(ledger_ok);
        }
        ZebraDb {
            hash_by_height: Vec::new(),
            block_header_by_height: Vec::new(),
            tx_by_loc: Vec::new(),
            hash_by_tx_loc: Vec::new(),
            sprout_note_commitment_tree: Vec::new(),
            sapling_note_commitment_tree: Vec::new(),
            orchard_note_commitment_tree: Vec::new(),
            utxo_by_out_loc: Vec::new(),
            balance_by_address: Vec::new(),
            value_pool: ValueBalance::zero(),
        }
    }

    /// Returns true if the store holds no block.
    pub fn is_empty(&self) -> (r: bool)
        ensures
            r == (self.count() == 0),
    {
        self.hash_by_height.len() == 0
    }

    /// The tip height and hash, if there is a tip.
    pub fn tip(&self) -> (r: Option<(Height, BlockHash)>)
        requires
            self.wf(),
        ensures
            r == (if self.count() == 0 {
                None
            } else {
                Some(((self.count() - 1) as Height, self.hashes()[self.count() - 1]))
            }),
    {
        let n = self.hash_by_height.len();
        if n == 0 {
            None
        } else {
            Some(((n - 1) as Height, self.hash_by_height[n - 1]))
        }
    }

    /// Returns whether a block at `height` is stored.
    pub fn contains_height(&self, height: Height) -> (r: bool)
        ensures
            r == (height < self.count()),
    {
        (height as usize) < self.hash_by_height.len()
    }

    /// The hash of the block at `height`, if it is stored.
    pub fn hash(&self, height: Height) -> (r: Option<BlockHash>)
        ensures
            r == (if height < self.count() {
                Some(self.hashes()[height as int])
            } else {
                None
            }),
    {
        if (height as usize) < self.hash_by_height.len() {
            Some(self.hash_by_height[height as usize])
        } else {
            None
        }
    }

    /// Returns whether a block with `hash` is stored.
    pub fn contains_hash(&self, hash: BlockHash) -> (r: bool)
        ensures
            r == self.hashes().contains(hash),
    {
        crate::types::contains_block_hash(&self.hash_by_height, hash)
    }

    /// The height of the block with `hash`, if it is stored.
    pub fn height(&self, hash: BlockHash) -> (r: Option<Height>)
        requires
            self.wf(),
        ensures
            r == self.height_of(hash),
            r matches Some(k) ==> k < self.count() && self.hashes()[k as int] == hash,
            r is None ==> !self.hashes().contains(hash),
    {
        let mut i: usize = 0;
        while i < self.hash_by_height.len()
            invariant
                self.wf(),
                i <= self.hash_by_height.len(),
                forall|j: int| 0 <= j < i ==> self.hash_by_height@[j] != hash,
            decreases self.hash_by_height.len() - i,
        {
            if self.hash_by_height[i] == hash {
                proof {
                    assert(self.hashes()[i as int] == hash);
                    assert(self.hashes().contains(hash));
                    let c = choose|c: int| 0 <= c < self.hashes().len() && self.hashes()[c] == hash;
                    assert(self.hash_by_height@.no_duplicates());
                    assert(c == i);
                }
                return Some(i as Height);
            }
            i = i + 1;
        }
        None
    }

    /// Resolves `hash_or_height` to a height, through the height index for a hash.
    pub fn height_or_else(&self, hash_or_height: HashOrHeight) -> (r: Option<Height>)
        requires
            self.wf(),
        ensures
            r == self.resolve(hash_or_height),
    {
        match hash_or_height {
            HashOrHeight::Height(h) => Some(h),
            HashOrHeight::Hash(x) => self.height(x),
        }
    }

    /// The stored height that `hash_or_height` names, if any.
    fn stored_height_of(&self, hash_or_height: HashOrHeight) -> (r: Option<Height>)
        requires
            self.wf(),
        ensures
            r == self.stored_height(hash_or_height),
    {
        match self.height_or_else(hash_or_height) {
            Some(h) => if (h as usize) < self.hash_by_height.len() {
                Some(h)
            } else {
                None
            },
            None => None,
        }
    }

    /// The header of the block that `hash_or_height` names, if it is stored.
    pub fn block_header(&self, hash_or_height: HashOrHeight) -> (r: Option<Header>)
        requires
            self.wf(),
        ensures
            r == (match self.stored_height(hash_or_height) {
                Some(h) => Some(self.headers()[h as int]),
                None => None,
            }),
    {
        match self.stored_height_of(hash_or_height) {
            Some(h) => Some(self.block_header_by_height[h as usize]),
            None => None,
        }
    }

    /// The block that `hash_or_height` names, if it is stored.
    pub fn block(&self, hash_or_height: HashOrHeight) -> (r: Option<Block>)
        requires
            self.wf(),
        ensures
            self.stored_height(hash_or_height) is None ==> r is None,
            self.stored_height(hash_or_height) matches Some(h) ==> r matches Some(b) && b.header
                == self.headers()[h as int] && tx_views(b.transactions@) == self.txs_at(h as int),
    {
        match self.stored_height_of(hash_or_height) {
            Some(h) => {
                let header = self.block_header_by_height[h as usize];
                let transactions = copy_transactions(&self.tx_by_loc[h as usize]);
                Some(Block { header, transactions })
            },
            None => None,
        }
    }

    /// Copies the tree of `pool` at a stored height.
    fn tree_by_height(&self, pool: Pool, h: Height) -> (r: NoteCommitmentTree)
        requires
            self.wf(),
            h < self.count(),
        ensures
            r.leaves@ == self.tree_at(pool, h as int),
    {
        let leaves = match pool {
            Pool::Sprout => self.sprout_note_commitment_tree[h as usize].leaves.clone(),
            Pool::Sapling => self.sapling_note_commitment_tree[h as usize].leaves.clone(),
            Pool::Orchard => self.orchard_note_commitment_tree[h as usize].leaves.clone(),
        };
        NoteCommitmentTree { leaves }
    }

    /// The Sprout note commitment tree after the block that `hash_or_height`
    /// names, if it is stored.
    pub fn sprout_tree_by_hash_or_height(&self, hash_or_height: HashOrHeight) -> (r: Option<NoteCommitmentTree>)
        requires
            self.wf(),
        ensures
            self.stored_height(hash_or_height) is None ==> r is None,
            self.stored_height(hash_or_height) matches Some(h) ==> r matches Some(t) && t.leaves@
                == self.tree_at(Pool::Sprout, h as int),
    {
        match self.stored_height_of(hash_or_height) {
            Some(h) => Some(self.tree_by_height(Pool::Sprout, h)),
            None => None,
        }
    }

    /// The Sapling note commitment tree after the block that `hash_or_height`
    /// names, if it is stored.
    pub fn sapling_tree_by_hash_or_height(&self, hash_or_height: HashOrHeight) -> (r: Option<NoteCommitmentTree>)
        requires
            self.wf(),
        ensures
            self.stored_height(hash_or_height) is None ==> r is None,
            self.stored_height(hash_or_height) matches Some(h) ==> r matches Some(t) && t.leaves@
                == self.tree_at(Pool::Sapling, h as int),
    {
        match self.stored_height_of(hash_or_height) {
            Some(h) => Some(self.tree_by_height(Pool::Sapling, h)),
            None => None,
        }
    }

    /// The Orchard note commitment tree after the block that `hash_or_height`
    /// names, if it is stored.
    pub fn orchard_tree_by_hash_or_height(&self, hash_or_height: HashOrHeight) -> (r: Option<NoteCommitmentTree>)
        requires
            self.wf(),
        ensures
            self.stored_height(hash_or_height) is None ==> r is None,
            self.stored_height(hash_or_height) matches Some(h) ==> r matches Some(t) && t.leaves@
                == self.tree_at(Pool::Orchard, h as int),
    {
        match self.stored_height_of(hash_or_height) {
            Some(h) => Some(self.tree_by_height(Pool::Orchard, h)),
            None => None,
        }
    }

    /// The tip hash, or the all-zeros hash when the store is empty.
    pub fn finalized_tip_hash(&self) -> (r: BlockHash)
        requires
            self.wf(),
        ensures
            r == (if self.count() == 0 {
                spec_pre_genesis_hash()
            } else {
                self.hashes()[self.count() - 1]
            }),
    {
        match self.tip() {
            Some((_, hash)) => hash,
            None => pre_genesis_hash(),
        }
    }

    /// The tip height, if there is a tip.
    pub fn finalized_tip_height(&self) -> (r: Option<Height>)
        requires
            self.wf(),
        ensures
            r == (if self.count() == 0 {
                None
            } else {
                Some((self.count() - 1) as Height)
            }),
    {
        match self.tip() {
            Some((height, _)) => Some(height),
            None => None,
        }
    }

    /// The tip block, if there is a tip.
    pub fn tip_block(&self) -> (r: Option<Block>)
        requires
            self.wf(),
        ensures
            self.count() == 0 ==> r is None,
            self.count() > 0 ==> (r matches Some(b) && b.header == self.headers()[self.count() - 1]
                && tx_views(b.transactions@) == self.txs_at(self.count() - 1)),
    {
        match self.tip() {
            Some((height, _)) => self.block(HashOrHeight::Height(height)),
            None => None,
        }
    }

    /// The location of the first stored transaction, in chain order, whose
    /// hash is `hash`.
    pub fn transaction_location(&self, hash: TxHash) -> (r: Option<TransactionLocation>)
        requires
            self.wf(),
        ensures
            r is None <==> !exists|l: TransactionLocation| #[trigger] self.valid_tx_location(l)
                && self.tx_hashes_at(l.height as int)[l.index as int] == hash,
            r matches Some(l) ==> self.valid_tx_location(l) && self.tx_hashes_at(l.height as int)[l.index as int] == hash
                && forall|e: TransactionLocation| #[trigger] self.valid_tx_location(e) && (e.height < l.height
                    || (e.height == l.height && e.index < l.index)) ==> self.tx_hashes_at(e.height as int)[e.index as int] != hash,
            forall|l: TransactionLocation| #[trigger] self.valid_tx_location(l) && self.tx_hash_at(l) == hash ==> r == Some(l),
    {
        let mut h: usize = 0;
        while h < self.hash_by_tx_loc.len()
            invariant
                self.wf(),
                h <= self.hash_by_tx_loc.len(),
                forall|e: TransactionLocation| #[trigger] self.valid_tx_location(e) && e.height < h ==> self.tx_hashes_at(e.height as int)[e.index as int] != hash,
            decreases self.hash_by_tx_loc.len() - h,
        {
            let hashes = &self.hash_by_tx_loc[h];
            let mut i: usize = 0;
            while i < hashes.len()
                invariant
                    self.wf(),
                    h < self.hash_by_tx_loc.len(),
                    hashes@ == self.tx_hashes_at(h as int),
                    i <= hashes.len(),
                    forall|e: TransactionLocation| #[trigger] self.valid_tx_location(e) && (e.height < h || (e.height == h && e.index < i)) ==> self.tx_hashes_at(e.height as int)[e.index as int] != hash,
                decreases hashes.len() - i,
            {
                if hashes[i] == hash {
                    let l = TransactionLocation { height: h as Height, index: i };
                    assert(self.valid_tx_location(l));
                    assert(self.tx_hash_at(l) == hash);
                    return Some(l);
                }
                i = i + 1;
            }
            h = h + 1;
        }
        None
    }

    /// The hash of the transaction at `location`, if it is stored.
    pub fn transaction_hash(&self, location: TransactionLocation) -> (r: Option<TxHash>)
        requires
            self.wf(),
        ensures
            r == (if self.valid_tx_location(location) {
                Some(self.tx_hashes_at(location.height as int)[location.index as int])
            } else {
                None
            }),
    {
        let h = location.height as usize;
        if h < self.hash_by_tx_loc.len() && location.index < self.hash_by_tx_loc[h].len() {
            Some(self.hash_by_tx_loc[h][location.index])
        } else {
            None
        }
    }

    /// The transaction with `hash` and the height of its block, if it is stored.
    pub fn transaction(&self, hash: TxHash) -> (r: Option<(Transaction, Height)>)
        requires
            self.wf(),
        ensures
            r is None <==> !exists|l: TransactionLocation| #[trigger] self.valid_tx_location(l)
                && self.tx_hashes_at(l.height as int)[l.index as int] == hash,
            r matches Some((tx, height)) ==> exists|l: TransactionLocation| #[trigger] self.valid_tx_location(l)
                && l.height == height && self.tx_hashes_at(l.height as int)[l.index as int] == hash
                && tx@ == self.txs_at(l.height as int)[l.index as int],
    {
        match self.transaction_location(hash) {
            Some(l) => {
                let tx = self.tx_by_loc[l.height as usize][l.index].copy();
                assert(tx_views(self.tx_by_loc@[l.height as int]@)[l.index as int] == tx@);
                Some((tx, l.height))
            },
            None => None,
        }
    }

    /// The transaction hashes of the block that `hash_or_height` names, in
    /// block order, if it is stored.
    pub fn transaction_hashes_for_block(&self, hash_or_height: HashOrHeight) -> (r: Option<Vec<TxHash>>)
        requires
            self.wf(),
        ensures
            self.stored_height(hash_or_height) is None ==> r is None,
            self.stored_height(hash_or_height) matches Some(h) ==> r matches Some(v) && v@
                == self.tx_hashes_at(h as int),
    {
        match self.stored_height_of(hash_or_height) {
            Some(h) => Some(self.hash_by_tx_loc[h as usize].clone()),
            None => None,
        }
    }

    /// The unspent output with `outpoint`, if there is one.
    pub fn utxo(&self, outpoint: OutPoint) -> (r: Option<Utxo>)
        requires
            self.wf(),
        ensures
            r is None <==> !exists|k: int| 0 <= k < self.utxos().len() && #[trigger] self.utxos()[k].outpoint == outpoint,
            r matches Some(u) ==> exists|k: int| 0 <= k < self.utxos().len() && #[trigger] self.utxos()[k].outpoint == outpoint
                && self.utxos()[k].utxo == u,
    {
        match self.output_location_index(outpoint) {
            Some(k) => Some(self.utxo_by_out_loc[k].utxo),
            None => None,
        }
    }

    /// The index of the first live UTXO with `outpoint`.
    fn output_location_index(&self, outpoint: OutPoint) -> (r: Option<usize>)
        ensures
            r is None <==> !exists|k: int| 0 <= k < self.utxos().len() && #[trigger] self.utxos()[k].outpoint == outpoint,
            r matches Some(k) ==> k < self.utxos().len() && self.utxos()[k as int].outpoint == outpoint,
    {
        let mut k: usize = 0;
        while k < self.utxo_by_out_loc.len()
            invariant
                k <= self.utxo_by_out_loc@.len(),
                forall|j: int| 0 <= j < k ==> self.utxo_by_out_loc@[j].outpoint != outpoint,
            decreases self.utxo_by_out_loc@.len() - k,
        {
            if self.utxo_by_out_loc[k].outpoint == outpoint {
                assert(self.utxos()[k as int].outpoint == outpoint);
                return Some(k);
            }
            k = k + 1;
        }
        None
    }

    /// The location of the unspent output with `outpoint`, if there is one.
    pub fn output_location(&self, outpoint: OutPoint) -> (r: Option<OutputLocation>)
        ensures
            r is None <==> !exists|k: int| 0 <= k < self.utxos().len() && #[trigger] self.utxos()[k].outpoint == outpoint,
            r matches Some(l) ==> exists|k: int| 0 <= k < self.utxos().len() && #[trigger] self.utxos()[k].outpoint == outpoint
                && self.utxos()[k].location == l,
    {
        match self.output_location_index(outpoint) {
            Some(k) => Some(self.utxo_by_out_loc[k].location),
            None => None,
        }
    }

    /// The balance entry of `address`, if any output ever paid to it. Its
    /// balance is the value of the live UTXOs that pay to the address.
    pub fn address_balance_location(&self, address: Address) -> (r: Option<AddressBalanceLocation>)
        requires
            self.wf(),
        ensures
            r is None ==> forall|i: int| 0 <= i < self.balances().len() ==> #[trigger] self.balances()[i].address != address,
            r is None ==> address_value(self.utxos(), address) == 0,
            r matches Some(e) ==> e.address == address && e.balance == address_value(self.utxos(), address)
                && self.balances().contains(e),
    {
        proof {
            reveal(ledger_ok);
        }
        match crate::ledger::find_balance(&self.balance_by_address, address) {
            Some(i) => {
                let e = self.balance_by_address[i];
                assert(self.balances()[i as int] == e);
                Some(e)
            },
            None => {
                proof {
                    assert forall|k: int| 0 <= k < self.utxos().len() implies self.utxos()[k].utxo.output.address != address by {
                        if self.utxos()[k].utxo.output.address == address {
                            let j = choose|j: int| 0 <= j < self.balances().len() && #[trigger] self.balance_by_address@[j].address == self.utxo_by_out_loc@[k].utxo.output.address;
                        }
                    }
                    crate::ledger::lemma_address_value_absent(self.utxos(), address);
                }
                None
            },
        }
    }

    /// The value pools.
    pub fn finalized_value_pool(&self) -> (r: ValueBalance)
        ensures
            r == self.pool(),
    {
        self.value_pool
    }

    /// The parent hash the next block must name.
    pub open spec fn expected_parent(&self) -> BlockHash {
        if self.count() == 0 {
            spec_pre_genesis_hash()
        } else {
            self.hashes()[self.count() - 1]
        }
    }

    /// The UTXOs after `b`: its new outputs added, then its inputs spent;
    /// `None` when an input has no unspent output.
    pub open spec fn spent_utxos(&self, b: VerifiedBlock) -> Option<Seq<UtxoEntry>> {
        let txs = block_txs(b);
        spend_all(
            self.utxos() + block_new_utxos(b.height, txs, b.transaction_hashes@, txs.len() as int),
            block_inputs(txs, txs.len() as int),
        )
    }

    /// Every shielded pool stays within range after the flows of `b`.
    pub open spec fn pools_ok(&self, b: VerifiedBlock) -> bool {
        forall|p: Pool| 0 <= #[trigger] pool_total(self.pool(), p) + block_delta(block_txs(b), p) <= u128::MAX
    }

    /// What the caller of `write_block` has already verified of a block
    /// after the genesis block: every input spends an output that is unspent
    /// in the store or created earlier in the block, and no shielded pool
    /// leaves its range.
    pub open spec fn inputs_available(&self, b: VerifiedBlock) -> bool {
        self.count() > 0 ==> self.spent_utxos(b) is Some && self.pools_ok(b)
    }

    /// The transaction hashes of `b` are distinct and none is stored.
    pub open spec fn fresh_tx_hashes(&self, b: VerifiedBlock) -> bool {
        &&& b.transaction_hashes@.no_duplicates()
        &&& forall|i: int| 0 <= i < b.transaction_hashes@.len() ==> !self.tx_hash_stored(#[trigger] b.transaction_hashes@[i])
    }

    /// Why `b` cannot be written, checked in this order; `None` when it can.
    pub open spec fn write_refusal(&self, b: VerifiedBlock) -> Option<WriteError> {
        if b.height != self.count() {
            Some(WriteError::WrongHeight)
        } else if b.block.header.previous_block_hash != self.expected_parent() {
            Some(WriteError::WrongParent)
        } else if b.hash == spec_pre_genesis_hash() {
            Some(WriteError::ReservedHash)
        } else if self.hashes().contains(b.hash) {
            Some(WriteError::DuplicateBlock)
        } else if b.transaction_hashes@.len() != b.block.transactions@.len() {
            Some(WriteError::TransactionHashCountMismatch)
        } else if !self.fresh_tx_hashes(b) {
            Some(WriteError::DuplicateTransaction)
        } else {
            None
        }
    }

    /// Returns whether the hashes are distinct and none is stored.
    fn fresh_transaction_hashes(&self, hashes: &Vec<TxHash>) -> (r: bool)
        requires
            self.wf(),
        ensures
            r == (hashes@.no_duplicates() && forall|i: int| 0 <= i < hashes@.len() ==> !self.tx_hash_stored(#[trigger] hashes@[i])),
    {
        let mut i: usize = 0;
        while i < hashes.len()
            invariant
                self.wf(),
                i <= hashes@.len(),
                forall|a: int, c: int| 0 <= a < c < i ==> hashes@[a] != hashes@[c],
                forall|a: int| 0 <= a < i ==> !self.tx_hash_stored(#[trigger] hashes@[a]),
            decreases hashes@.len() - i,
        {
            let x = hashes[i];
            let mut j: usize = 0;
            while j < i
                invariant
                    i < hashes@.len(),
                    x == hashes@[i as int],
                    j <= i,
                    forall|a: int| 0 <= a < j ==> hashes@[a] != x,
                decreases i - j,
            {
                if hashes[j] == x {
                    assert(!hashes@.no_duplicates()) by {
                        assert(hashes@[j as int] == hashes@[i as int]);
                    }
                    return false;
                }
                j = j + 1;
            }
            if self.transaction_location(x).is_some() {
                return false;
            }
            i = i + 1;
        }
        true
    }

    /// The trees after the block at `h`.
    fn note_commitment_trees_at(&self, h: usize) -> (r: NoteCommitmentTrees)
        requires
            self.wf(),
            h < self.count(),
        ensures
            forall|p: Pool| #[trigger] prev_tree(r, p) == self.tree_at(p, h as int),
    {
        let r = NoteCommitmentTrees {
            sprout: self.tree_by_height(Pool::Sprout, h as Height),
            sapling: self.tree_by_height(Pool::Sapling, h as Height),
            orchard: self.tree_by_height(Pool::Orchard, h as Height),
        };
        assert forall|p: Pool| #[trigger] prev_tree(r, p) == self.tree_at(p, h as int) by {
            match p {
                Pool::Sprout => {},
                Pool::Sapling => {},
                Pool::Orchard => {},
            }
        }
        r
    }

    /// Applies a staged batch as one step.
    fn write_batch(&mut self, batch: DiskWriteBatch)
        ensures
            final(self).hash_by_height@ == old(self).hash_by_height@.push(batch.hash),
            final(self).block_header_by_height@ == old(self).block_header_by_height@.push(batch.header),
            final(self).tx_by_loc@ == old(self).tx_by_loc@.push(batch.transactions),
            final(self).hash_by_tx_loc@ == old(self).hash_by_tx_loc@.push(batch.transaction_hashes),
            final(self).sprout_note_commitment_tree@ == old(self).sprout_note_commitment_tree@.push(batch.sprout_tree),
            final(self).sapling_note_commitment_tree@ == old(self).sapling_note_commitment_tree@.push(batch.sapling_tree),
            final(self).orchard_note_commitment_tree@ == old(self).orchard_note_commitment_tree@.push(batch.orchard_tree),
            final(self).utxo_by_out_loc == batch.utxos,
            final(self).balance_by_address == batch.balances,
            final(self).value_pool == batch.value_pool,
    {
        let DiskWriteBatch {
            hash,
            header,
            transactions,
            transaction_hashes,
            sprout_tree,
            sapling_tree,
            orchard_tree,
            utxos,
            balances,
            value_pool,
        } = batch;
        self.hash_by_height.push(hash);
        self.block_header_by_height.push(header);
        self.tx_by_loc.push(transactions);
        self.hash_by_tx_loc.push(transaction_hashes);
        self.sprout_note_commitment_tree.push(sprout_tree);
        self.sapling_note_commitment_tree.push(sapling_tree);
        self.orchard_note_commitment_tree.push(orchard_tree);
        self.utxo_by_out_loc = utxos;
        self.balance_by_address = balances;
        self.value_pool = value_pool;
    }
}

/// The transactions of a verified block, as views.
pub open spec fn block_txs(b: VerifiedBlock) -> Seq<TransactionView> {
    tx_views(b.block.transactions@)
}

/// Everything that one block writes, staged before any of it is applied:
/// the block's own columns, the new tree of each pool, and the new UTXOs,
/// balances and value pools.
pub struct DiskWriteBatch {
    pub hash: BlockHash,
    pub header: Header,
    pub transactions: Vec<Transaction>,
    pub transaction_hashes: Vec<TxHash>,
    pub sprout_tree: NoteCommitmentTree,
    pub sapling_tree: NoteCommitmentTree,
    pub orchard_tree: NoteCommitmentTree,
    pub utxos: Vec<UtxoEntry>,
    pub balances: Vec<AddressBalanceLocation>,
    pub value_pool: ValueBalance,
}

impl DiskWriteBatch {
    /// The leaves of the staged tree of `pool`.
    pub open spec fn staged_tree(&self, pool: Pool) -> Seq<NoteCommitment> {
        match pool {
            Pool::Sprout => self.sprout_tree.leaves@,
            Pool::Sapling => self.sapling_tree.leaves@,
            Pool::Orchard => self.orchard_tree.leaves@,
        }
    }

    /// Stages the header, the hash and height indexes, and every transaction
    /// with its hash; the trees start empty and the UTXOs, balances and value
    /// pools as they are in `db`.
    pub fn prepare_block_header_and_transaction_data_batch(db: &ZebraDb, finalized: &VerifiedBlock) -> (r: DiskWriteBatch)
        requires
            db.wf(),
        ensures
            r.hash == finalized.hash,
            r.header == finalized.block.header,
            tx_views(r.transactions@) == block_txs(*finalized),
            r.transaction_hashes@ == finalized.transaction_hashes@,
            forall|p: Pool| #[trigger] r.staged_tree(p) == Seq::<NoteCommitment>::empty(),
            r.utxos@ == db.utxos(),
            r.balances@ == db.balances(),
            r.value_pool == db.pool(),
    {
        let empty = NoteCommitmentTree { leaves: Vec::new() };
        let r = DiskWriteBatch {
            hash: finalized.hash,
            header: finalized.block.header,
            transactions: copy_transactions(&finalized.block.transactions),
            transaction_hashes: finalized.transaction_hashes.clone(),
            sprout_tree: NoteCommitmentTree { leaves: Vec::new() },
            sapling_tree: NoteCommitmentTree { leaves: Vec::new() },
            orchard_tree: empty,
            utxos: db.utxo_by_out_loc.clone(),
            balances: db.balance_by_address.clone(),
            value_pool: db.value_pool,
        };
        assert forall|p: Pool| #[trigger] r.staged_tree(p) == Seq::<NoteCommitment>::empty() by {
            match p {
                Pool::Sprout => assert(r.sprout_tree.leaves@ =~= Seq::<NoteCommitment>::empty()),
                Pool::Sapling => assert(r.sapling_tree.leaves@ =~= Seq::<NoteCommitment>::empty()),
                Pool::Orchard => assert(r.orchard_tree.leaves@ =~= Seq::<NoteCommitment>::empty()),
            }
        }
        r
    }

    /// Returns whether `finalized` is the genesis block: height zero, with the
    /// all-zeros previous hash. Its trees stay the empty trees, and its
    /// outputs and value flows are not applied.
    pub fn prepare_genesis_batch(&self, finalized: &VerifiedBlock) -> (r: bool)
        ensures
            r == (finalized.block.header.previous_block_hash == spec_pre_genesis_hash()),
    {
        finalized.block.header.previous_block_hash == pre_genesis_hash()
    }

    /// Stages the transparent updates: adds the block's new outputs, then
    /// spends its inputs, with the address balances and the transparent pool.
    pub fn prepare_transparent_transaction_batch(&mut self, finalized: &VerifiedBlock) -> (ok: bool)
        requires
            ledger_ok(old(self).utxos@, old(self).balances@, old(self).value_pool.transparent as int),
            finalized.transaction_hashes@.len() == finalized.block.transactions@.len(),
        ensures
            ok == spend_all(old(self).utxos@ + block_new_utxos(finalized.height, block_txs(*finalized), finalized.transaction_hashes@, block_txs(*finalized).len() as int), block_inputs(block_txs(*finalized), block_txs(*finalized).len() as int)) is Some,
            ok ==> spend_all(old(self).utxos@ + block_new_utxos(finalized.height, block_txs(*finalized), finalized.transaction_hashes@, block_txs(*finalized).len() as int), block_inputs(block_txs(*finalized), block_txs(*finalized).len() as int)) == Some(final(self).utxos@),
            ledger_ok(final(self).utxos@, final(self).balances@, final(self).value_pool.transparent as int),
            balances_extended(old(self).balances@, final(self).balances@),
            entries_from_outputs(old(self).balances@, final(self).balances@, block_new_utxos(finalized.height, block_txs(*finalized), finalized.transaction_hashes@, block_txs(*finalized).len() as int)),
            final(self).hash == old(self).hash,
            final(self).header == old(self).header,
            final(self).transactions == old(self).transactions,
            final(self).transaction_hashes == old(self).transaction_hashes,
            final(self).sprout_tree == old(self).sprout_tree,
            final(self).sapling_tree == old(self).sapling_tree,
            final(self).orchard_tree == old(self).orchard_tree,
            final(self).value_pool.sprout == old(self).value_pool.sprout,
            final(self).value_pool.sapling == old(self).value_pool.sapling,
            final(self).value_pool.orchard == old(self).value_pool.orchard,
    {
        let mut transparent = self.value_pool.transparent;
        let ghost b0 = self.balances@;
        assert(tx_views(finalized.block.transactions@).len() == finalized.block.transactions@.len());
        credit_block_outputs(
            &mut self.utxos,
            &mut self.balances,
            &mut transparent,
            finalized.height,
            &finalized.block.transactions,
            &finalized.transaction_hashes,
        );
        let ghost b1 = self.balances@;
        let ok = debit_block_inputs(&mut self.utxos, &mut self.balances, &mut transparent, &finalized.block.transactions);
        proof {
            crate::ledger::lemma_balances_extended_trans(b0, b1, self.balances@);
            crate::ledger::lemma_entries_keep(b0, b1, self.balances@, block_new_utxos(finalized.height, block_txs(*finalized), finalized.transaction_hashes@, block_txs(*finalized).len() as int));
        }
        self.value_pool.transparent = transparent;
        ok
    }

    /// Stages the tree of each pool: the tree before the block with the
    /// block's leaves appended.
    pub fn prepare_trees_batch(&mut self, prev: &NoteCommitmentTrees, finalized: &VerifiedBlock)
        ensures
            forall|p: Pool| #[trigger] final(self).staged_tree(p) == prev_tree(*prev, p) + block_notes(block_txs(*finalized), p),
            final(self).hash == old(self).hash,
            final(self).header == old(self).header,
            final(self).transactions == old(self).transactions,
            final(self).transaction_hashes == old(self).transaction_hashes,
            final(self).utxos == old(self).utxos,
            final(self).balances == old(self).balances,
            final(self).value_pool == old(self).value_pool,
    {
        self.sprout_tree = append_notes(&prev.sprout, &finalized.block.transactions, Pool::Sprout);
        self.sapling_tree = append_notes(&prev.sapling, &finalized.block.transactions, Pool::Sapling);
        self.orchard_tree = append_notes(&prev.orchard, &finalized.block.transactions, Pool::Orchard);
        assert forall|p: Pool| #[trigger] self.staged_tree(p) == prev_tree(*prev, p) + block_notes(block_txs(*finalized), p) by {
            match p {
                Pool::Sprout => {},
                Pool::Sapling => {},
                Pool::Orchard => {},
            }
        }
    }

    /// Stages the shielded value pools after the block's flows; false when
    /// one would be negative or overflow.
    pub fn prepare_chain_value_pools_batch(&mut self, finalized: &VerifiedBlock) -> (ok: bool)
        ensures
            ok == (forall|p: Pool| 0 <= #[trigger] pool_total(old(self).value_pool, p) + block_delta(block_txs(*finalized), p) <= u128::MAX),
            ok ==> forall|p: Pool| #[trigger] pool_total(final(self).value_pool, p) == pool_total(old(self).value_pool, p) + block_delta(block_txs(*finalized), p),
            final(self).value_pool.transparent == old(self).value_pool.transparent,
            final(self).hash == old(self).hash,
            final(self).header == old(self).header,
            final(self).transactions == old(self).transactions,
            final(self).transaction_hashes == old(self).transaction_hashes,
            final(self).sprout_tree == old(self).sprout_tree,
            final(self).sapling_tree == old(self).sapling_tree,
            final(self).orchard_tree == old(self).orchard_tree,
            final(self).utxos == old(self).utxos,
            final(self).balances == old(self).balances,
    {
        let txs = &finalized.block.transactions;
        let ghost v0 = self.value_pool;
        let sprout = apply_pool_delta(self.value_pool.sprout, txs, Pool::Sprout);
        let sapling = apply_pool_delta(self.value_pool.sapling, txs, Pool::Sapling);
        let orchard = apply_pool_delta(self.value_pool.orchard, txs, Pool::Orchard);
        match (sprout, sapling, orchard) {
            (Some(a), Some(b), Some(c)) => {
                self.value_pool = ValueBalance { transparent: self.value_pool.transparent, sprout: a, sapling: b, orchard: c };
                assert forall|p: Pool| #[trigger] pool_total(self.value_pool, p) == pool_total(v0, p) + block_delta(block_txs(*finalized), p) by {
                    match p {
                        Pool::Sprout => {},
                        Pool::Sapling => {},
                        Pool::Orchard => {},
                    }
                }
                assert forall|p: Pool| 0 <= #[trigger] pool_total(v0, p) + block_delta(block_txs(*finalized), p) <= u128::MAX by {
                    match p {
                        Pool::Sprout => {},
                        Pool::Sapling => {},
                        Pool::Orchard => {},
                    }
                }
                true
            },
            _ => {
                assert(!(forall|p: Pool| 0 <= #[trigger] pool_total(v0, p) + block_delta(block_txs(*finalized), p) <= u128::MAX)) by {
                    if sprout is None {
                        assert(!(0 <= pool_total(v0, Pool::Sprout) + block_delta(block_txs(*finalized), Pool::Sprout) <= u128::MAX));
                    } else if sapling is None {
                        assert(!(0 <= pool_total(v0, Pool::Sapling) + block_delta(block_txs(*finalized), Pool::Sapling) <= u128::MAX));
                    } else {
                        assert(!(0 <= pool_total(v0, Pool::Orchard) + block_delta(block_txs(*finalized), Pool::Orchard) <= u128::MAX));
                    }
                }
                false
            },
        }
    }
}

/// The tree of `pool` among `trees`.
pub open spec fn prev_tree(trees: NoteCommitmentTrees, pool: Pool) -> Seq<NoteCommitment> {
    match pool {
        Pool::Sprout => trees.sprout.leaves@,
        Pool::Sapling => trees.sapling.leaves@,
        Pool::Orchard => trees.orchard.leaves@,
    }
}

impl DiskWriteBatch {
    /// Stages every column that `finalized` changes, reading `db` only.
    /// The genesis block stages its own columns and empty trees, and leaves
    /// the UTXOs, balances and value pools as they are.
    pub fn prepare_block_batch(db: &ZebraDb, finalized: &VerifiedBlock) -> (batch: DiskWriteBatch)
        requires
            db.wf(),
            finalized.height == db.count(),
            finalized.block.header.previous_block_hash == db.expected_parent(),
            !db.hashes().contains(finalized.hash),
            finalized.transaction_hashes@.len() == finalized.block.transactions@.len(),
            db.inputs_available(*finalized),
        ensures
            ({
                &&& batch.hash == finalized.hash
                &&& batch.header == finalized.block.header
                &&& tx_views(batch.transactions@) == block_txs(*finalized)
                &&& batch.transaction_hashes@ == finalized.transaction_hashes@
                &&& ledger_ok(batch.utxos@, batch.balances@, batch.value_pool.transparent as int)
                &&& balances_extended(db.balances(), batch.balances@)
                &&& db.count() == 0 ==> {
                    &&& forall|p: Pool| #[trigger] batch.staged_tree(p) == Seq::<NoteCommitment>::empty()
                    &&& batch.utxos@ == db.utxos()
                    &&& batch.balances@ == db.balances()
                    &&& batch.value_pool == db.pool()
                }
                &&& db.count() > 0 ==> {
                    &&& forall|p: Pool| #[trigger] batch.staged_tree(p) == db.tree_at(p, db.count() - 1) + block_notes(block_txs(*finalized), p)
                    &&& db.spent_utxos(*finalized) == Some(batch.utxos@)
                    &&& forall|p: Pool| #[trigger] pool_total(batch.value_pool, p) == pool_total(db.pool(), p) + block_delta(block_txs(*finalized), p)
                    &&& entries_from_outputs(db.balances(), batch.balances@, block_new_utxos(finalized.height, block_txs(*finalized), finalized.transaction_hashes@, block_txs(*finalized).len() as int))
                }
            }),
    {
        let mut batch = Self::prepare_block_header_and_transaction_data_batch(db, finalized);
        if batch.prepare_genesis_batch(finalized) {
            proof {
                assert(db.count() == 0) by {
                    if db.count() > 0 {
                        assert(db.hashes().contains(db.hashes()[db.count() - 1]));
                    }
                }
            }
            return batch;
        }
        assert(db.count() > 0) by {
            if db.count() == 0 {
                assert(finalized.block.header.previous_block_hash == spec_pre_genesis_hash());
            }
        }
        let spent = batch.prepare_transparent_transaction_batch(finalized);
        assert(spent);
        let n = db.hash_by_height.len();
        let prev = db.note_commitment_trees_at(n - 1);
        batch.prepare_trees_batch(&prev, finalized);
        assert forall|p: Pool| #[trigger] pool_total(batch.value_pool, p) == pool_total(db.pool(), p) by {
            match p {
                Pool::Sprout => {},
                Pool::Sapling => {},
                Pool::Orchard => {},
            }
        }
        let ghost before_pools = batch;
        assert forall|p: Pool| 0 <= #[trigger] pool_total(before_pools.value_pool, p) + block_delta(block_txs(*finalized), p) <= u128::MAX by {
            assert(pool_total(before_pools.value_pool, p) == pool_total(db.pool(), p));
        }
        let pools_in_range = batch.prepare_chain_value_pools_batch(finalized);
        assert(pools_in_range);
        assert(ledger_ok(batch.utxos@, batch.balances@, batch.value_pool.transparent as int));
        assert(balances_extended(db.balances(), batch.balances@));
        assert forall|p: Pool| #[trigger] batch.staged_tree(p) == db.tree_at(p, db.count() - 1) + block_notes(block_txs(*finalized), p) by {
            assert(prev_tree(prev, p) == db.tree_at(p, n - 1));
            assert(before_pools.staged_tree(p) == prev_tree(prev, p) + block_notes(block_txs(*finalized), p));
            match p {
                Pool::Sprout => assert(batch.sprout_tree == before_pools.sprout_tree),
                Pool::Sapling => assert(batch.sapling_tree == before_pools.sapling_tree),
                Pool::Orchard => assert(batch.orchard_tree == before_pools.orchard_tree),
            }
        }
        assert forall|p: Pool| #[trigger] pool_total(batch.value_pool, p) == pool_total(db.pool(), p) + block_delta(block_txs(*finalized), p) by {
            assert(pool_total(before_pools.value_pool, p) == pool_total(db.pool(), p));
        }
        batch
    }
}

impl ZebraDb {
    /// Writes `finalized` as the new tip, as one atomic step. Nothing is
    /// written when `write_refusal` names a reason; then the store is unchanged.
    /// The caller has verified the block, so every input is available and
    /// the value pools stay in range.
    pub fn write_block(&mut self, finalized: &VerifiedBlock) -> (r: Result<BlockHash, WriteError>)
        requires
            old(self).wf(),
            old(self).inputs_available(*finalized),
        ensures
            r == (match old(self).write_refusal(*finalized) {
                Some(e) => Err(e),
                None => Ok(finalized.hash),
            }),
            final(self).wf(),
            r is Err ==> *final(self) == *old(self),
            final(self).count() >= old(self).count(),
            r is Ok ==> {
                let n = old(self).count() as int;
                &&& final(self).count() == n + 1
                &&& final(self).hashes() == old(self).hashes().push(finalized.hash)
                &&& final(self).headers() == old(self).headers().push(finalized.block.header)
                &&& final(self).txs_at(n) == block_txs(*finalized)
                &&& final(self).tx_hashes_at(n) == finalized.transaction_hashes@
                &&& forall|h: int| 0 <= h < n ==> #[trigger] final(self).txs_at(h) == old(self).txs_at(h)
                    && final(self).tx_hashes_at(h) == old(self).tx_hashes_at(h)
                &&& forall|p: Pool, h: int| 0 <= h < n ==> #[trigger] final(self).tree_at(p, h) == old(self).tree_at(p, h)
                &&& n == 0 ==> final(self).utxos() == old(self).utxos() && final(self).pool() == old(self).pool()
                    && final(self).balances() == old(self).balances()
                &&& finalized.height == n
                &&& final(self).hashes()[n] == finalized.hash
                &&& final(self).height_of(finalized.hash) == Some(finalized.height)
                &&& n > 0 ==> old(self).spent_utxos(*finalized) == Some(final(self).utxos())
                &&& n > 0 ==> forall|p: Pool| #[trigger] pool_total(final(self).pool(), p) == pool_total(old(self).pool(), p) + block_delta(block_txs(*finalized), p)
                &&& final(self).pool().transparent == total_value(final(self).utxos())
                &&& balances_extended(old(self).balances(), final(self).balances())
                &&& n > 0 ==> entries_from_outputs(old(self).balances(), final(self).balances(), block_new_utxos(finalized.height, block_txs(*finalized), finalized.transaction_hashes@, block_txs(*finalized).len() as int))
            },
    {
        let n = self.hash_by_height.len();
        if finalized.height as usize != n {
            return Err(WriteError::WrongHeight);
        }
        let parent = if n == 0 {
            pre_genesis_hash()
        } else {
            self.hash_by_height[n - 1]
        };
        if finalized.block.header.previous_block_hash != parent {
            return Err(WriteError::WrongParent);
        }
        if finalized.hash == pre_genesis_hash() {
            return Err(WriteError::ReservedHash);
        }
        if self.contains_hash(finalized.hash) {
            return Err(WriteError::DuplicateBlock);
        }
        if finalized.transaction_hashes.len() != finalized.block.transactions.len() {
            return Err(WriteError::TransactionHashCountMismatch);
        }
        if !self.fresh_transaction_hashes(&finalized.transaction_hashes) {
            return Err(WriteError::DuplicateTransaction);
        }
        let batch = DiskWriteBatch::prepare_block_batch(self, finalized);
        let ghost old_db = *self;
        let ghost b = batch;
        self.write_batch(batch);
        proof {
            self.lemma_write_preserves_wf(old_db, *finalized, b);
            lemma_hash_height_round_trip(*self, finalized.height, finalized.hash);
            assert(self.hashes()[n as int] == finalized.hash);
        }
        Ok(finalized.hash)
    }

    proof fn lemma_write_preserves_wf(&self, old_db: ZebraDb, b: VerifiedBlock, batch: DiskWriteBatch)
        requires
            old_db.wf(),
            old_db.write_refusal(b) is None,
            batch.hash == b.hash,
            batch.header == b.block.header,
            tx_views(batch.transactions@) == block_txs(b),
            batch.transaction_hashes@ == b.transaction_hashes@,
            ledger_ok(batch.utxos@, batch.balances@, batch.value_pool.transparent as int),
            old_db.count() == 0 ==> {
                &&& forall|p: Pool| #[trigger] batch.staged_tree(p) == Seq::<NoteCommitment>::empty()
                &&& batch.utxos@ == old_db.utxos()
                &&& batch.value_pool == old_db.pool()
            },
            old_db.count() > 0 ==> {
                &&& forall|p: Pool| #[trigger] batch.staged_tree(p) == old_db.tree_at(p, old_db.count() - 1) + block_notes(block_txs(b), p)
                &&& old_db.spent_utxos(b) == Some(batch.utxos@)
            },
            self.hash_by_height@ == old_db.hash_by_height@.push(batch.hash),
            self.block_header_by_height@ == old_db.block_header_by_height@.push(batch.header),
            self.tx_by_loc@ == old_db.tx_by_loc@.push(batch.transactions),
            self.hash_by_tx_loc@ == old_db.hash_by_tx_loc@.push(batch.transaction_hashes),
            self.sprout_note_commitment_tree@ == old_db.sprout_note_commitment_tree@.push(batch.sprout_tree),
            self.sapling_note_commitment_tree@ == old_db.sapling_note_commitment_tree@.push(batch.sapling_tree),
            self.orchard_note_commitment_tree@ == old_db.orchard_note_commitment_tree@.push(batch.orchard_tree),
            self.utxo_by_out_loc == batch.utxos,
            self.balance_by_address == batch.balances,
            self.value_pool == batch.value_pool,
        ensures
            self.wf(),
            forall|h: int| 0 <= h < old_db.count() ==> #[trigger] self.txs_at(h) == old_db.txs_at(h)
                && self.tx_hashes_at(h) == old_db.tx_hashes_at(h),
            forall|p: Pool, h: int| 0 <= h < old_db.count() ==> #[trigger] self.tree_at(p, h) == old_db.tree_at(p, h),
            self.txs_at(old_db.count() as int) == block_txs(b),
            self.tx_hashes_at(old_db.count() as int) == b.transaction_hashes@,
    {
        let n = old_db.count() as int;
        crate::sync::lemma_push_no_duplicates(old_db.hash_by_height@, b.hash);
        assert(!self.hashes().contains(spec_pre_genesis_hash())) by {
            if self.hashes().contains(spec_pre_genesis_hash()) {
                let k = choose|k: int| 0 <= k < self.hashes().len() && self.hashes()[k] == spec_pre_genesis_hash();
                if k < n {
                    assert(old_db.hashes()[k] == self.hashes()[k]);
                }
            }
        }
        assert forall|p: Pool, h: int| 0 <= h < n implies #[trigger] self.tree_at(p, h) == old_db.tree_at(p, h) by {
            match p {
                Pool::Sprout => assert(self.sprout_note_commitment_tree@[h] == old_db.sprout_note_commitment_tree@[h]),
                Pool::Sapling => assert(self.sapling_note_commitment_tree@[h] == old_db.sapling_note_commitment_tree@[h]),
                Pool::Orchard => assert(self.orchard_note_commitment_tree@[h] == old_db.orchard_note_commitment_tree@[h]),
            }
        }
        assert forall|p: Pool| #[trigger] self.tree_at(p, n) == batch.staged_tree(p) by {
            match p {
                Pool::Sprout => {},
                Pool::Sapling => {},
                Pool::Orchard => {},
            }
        }
        assert forall|h: int| 0 <= h < n implies #[trigger] self.txs_at(h) == old_db.txs_at(h) && self.tx_hashes_at(h) == old_db.tx_hashes_at(h) by {
            assert(self.tx_by_loc@[h] == old_db.tx_by_loc@[h]);
            assert(self.hash_by_tx_loc@[h] == old_db.hash_by_tx_loc@[h]);
        }
        assert(self.txs_at(n) == block_txs(b)) by {
            assert(self.tx_by_loc@[n] == batch.transactions);
        }
        assert(self.txs_at(n).len() == batch.transactions@.len());
        assert forall|h: int| 0 <= h < n + 1 implies #[trigger] self.hash_by_tx_loc@[h]@.len() == self.tx_by_loc@[h]@.len() by {
            if h < n {
                assert(old_db.hash_by_tx_loc@[h]@.len() == old_db.tx_by_loc@[h]@.len());
            }
        }
        assert forall|h: int| 0 <= h < self.count() implies #[trigger] self.tx_hashes_at(h).len() == self.txs_at(h).len() by {
            if h < n {
                assert(old_db.tx_hashes_at(h).len() == old_db.txs_at(h).len());
            }
        }
        assert forall|l1: TransactionLocation, l2: TransactionLocation|
            self.valid_tx_location(l1) && self.valid_tx_location(l2) && #[trigger] self.tx_hash_at(l1) == #[trigger] self.tx_hash_at(l2) implies l1 == l2 by {
            if l1.height < n && l2.height < n {
                assert(old_db.valid_tx_location(l1) && old_db.valid_tx_location(l2));
                assert(old_db.tx_hash_at(l1) == old_db.tx_hash_at(l2));
            } else if l1.height < n {
                assert(old_db.valid_tx_location(l1));
                assert(old_db.tx_hash_at(l1) == b.transaction_hashes@[l2.index as int]);
                assert(!old_db.tx_hash_stored(b.transaction_hashes@[l2.index as int]));
            } else if l2.height < n {
                assert(old_db.valid_tx_location(l2));
                assert(old_db.tx_hash_at(l2) == b.transaction_hashes@[l1.index as int]);
                assert(!old_db.tx_hash_stored(b.transaction_hashes@[l1.index as int]));
            } else {
                assert(b.transaction_hashes@[l1.index as int] == b.transaction_hashes@[l2.index as int]);
            }
        }
        assert forall|h: int| 0 < h < n + 1 implies #[trigger] self.block_header_by_height@[h].previous_block_hash == self.hash_by_height@[h - 1] by {
            if h < n {
                assert(old_db.block_header_by_height@[h].previous_block_hash == old_db.hash_by_height@[h - 1]);
            }
        }
        assert forall|p: Pool, h: int| 0 < h < n + 1 implies #[trigger] self.tree_at(p, h) == self.tree_at(p, h - 1) + block_notes(self.txs_at(h), p) by {
            if h < n {
                assert(old_db.tree_at(p, h) == old_db.tree_at(p, h - 1) + block_notes(old_db.txs_at(h), p));
            }
        }
        if n > 0 {
            let txs = block_txs(b);
            let w = old_db.utxos() + block_new_utxos(b.height, txs, b.transaction_hashes@, txs.len() as int);
            lemma_new_utxos_below(b.height, txs, b.transaction_hashes@, txs.len() as int);
            let nu = block_new_utxos(b.height, txs, b.transaction_hashes@, txs.len() as int);
            assert forall|k: int| 0 <= k < w.len() implies #[trigger] w[k].utxo.height < n + 1 && w[k].location.transaction_location.height == w[k].utxo.height by {
                if k < old_db.utxos().len() {
                    assert(w[k] == old_db.utxo_by_out_loc@[k]);
                } else {
                    assert(w[k] == nu[k - old_db.utxos().len()]);
                }
            }
            lemma_spend_all_below(w, block_inputs(txs, txs.len() as int), n + 1);
        }
    }
}

/// Heights and hashes are inverse: the height of the hash at a stored height
/// is that height, and the hash at the height of a stored hash is that hash.
pub proof fn lemma_hash_height_round_trip(db: ZebraDb, h: Height, x: BlockHash)
    requires
        db.wf(),
    ensures
        h < db.count() ==> db.height_of(db.hashes()[h as int]) == Some(h),
        db.height_of(x) matches Some(k) ==> k < db.count() && db.hashes()[k as int] == x,
{
    if h < db.count() {
        let y = db.hashes()[h as int];
        assert(db.hashes().contains(y));
        let c = choose|i: int| 0 <= i < db.hashes().len() && db.hashes()[i] == y;
        assert(db.hash_by_height@.no_duplicates());
        assert(c == h);
    }
    if db.hashes().contains(x) {
        let c = choose|i: int| 0 <= i < db.hashes().len() && db.hashes()[i] == x;
        assert(c <= u32::MAX);
    }
}

/// A block looked up by hash is the block looked up by that hash's height,
/// and a block looked up by height is the block looked up by its hash.
pub proof fn lemma_block_by_hash_or_height(db: ZebraDb, x: BlockHash, h: Height)
    requires
        db.wf(),
    ensures
        db.stored_height(HashOrHeight::Hash(x)) matches Some(k) ==> db.height_of(x) == Some(k)
            && db.stored_height(HashOrHeight::Height(k)) == Some(k),
        db.stored_height(HashOrHeight::Height(h)) is Some ==> db.stored_height(HashOrHeight::Hash(db.hashes()[h as int])) == Some(h),
{
    lemma_hash_height_round_trip(db, h, x);
}

/// Each stored block has exactly one transaction hash per transaction.
pub proof fn lemma_tx_hashes_match_block(db: ZebraDb, h: Height)
    requires
        db.wf(),
        h < db.count(),
    ensures
        db.tx_hashes_at(h as int).len() == db.txs_at(h as int).len(),
{
}

/// Every live UTXO was created at or below the tip height, at the height its
/// location names.
pub proof fn lemma_utxos_below_tip(db: ZebraDb)
    requires
        db.wf(),
    ensures
        forall|k: int| 0 <= k < db.utxos().len() ==> #[trigger] db.utxos()[k].utxo.height < db.count()
            && db.utxos()[k].location.transaction_location.height == db.utxos()[k].utxo.height,
{
}

/// A store holding only the genesis block has no UTXOs and empty value pools.
pub proof fn lemma_genesis_only(db: ZebraDb)
    requires
        db.wf(),
        db.count() == 1,
    ensures
        db.utxos().len() == 0,
        db.pool() == ValueBalance::spec_zero(),
{
}

/// The note commitment trees start empty at the genesis height, and the tree
/// at each later height is the tree below it with that block's leaves appended.
pub proof fn lemma_tree_growth(db: ZebraDb, pool: Pool, h: int)
    requires
        db.wf(),
        0 <= h < db.count(),
    ensures
        h == 0 ==> db.tree_at(pool, h) == Seq::<NoteCommitment>::empty(),
        h > 0 ==> db.tree_at(pool, h) == db.tree_at(pool, h - 1) + block_notes(db.txs_at(h), pool),
{
}

/// The transparent pool holds the total value of the live UTXOs.
pub proof fn lemma_transparent_pool_is_utxo_total(db: ZebraDb)
    requires
        db.wf(),
    ensures
        db.pool().transparent == total_value(db.utxos()),
{
    reveal(ledger_ok);
}

/// The address balances sum to the value of the live UTXOs.
pub proof fn lemma_balances_sum_to_utxos(db: ZebraDb)
    requires
        db.wf(),
    ensures
        crate::ledger::balance_sum(db.balances()) == total_value(db.utxos()),
{
    crate::ledger::lemma_balances_sum_to_utxo_total(db.utxos(), db.balances(), db.pool().transparent as int);
}

/// A block that was just written cannot be written again.
pub proof fn lemma_rewrite_refused(before: ZebraDb, after: ZebraDb, b: VerifiedBlock)
    requires
        after.count() == before.count() + 1,
        after.hashes() == before.hashes().push(b.hash),
    ensures
        after.write_refusal(b) is Some,
{
    if b.height == after.count() {
        assert(after.hashes()[after.count() - 1] == b.hash);
        assert(after.hashes().contains(b.hash));
    }
}

} // verus!

//! Plain-value identifiers shared by the store and the synchronizer.

use vstd::prelude::*;

verus! {

/// A 32-byte block hash, held as four 64-bit words.
#[derive(Clone, Copy, Debug, PartialEq, Eq, Structural, Hash)]
pub struct BlockHash(pub u64, pub u64, pub u64, pub u64);

/// A 32-byte transaction hash, held as four 64-bit words.
#[derive(Clone, Copy, Debug, PartialEq, Eq, Structural, Hash)]
pub struct TxHash(pub u64, pub u64, pub u64, pub u64);

/// The all-zeros hash that stands before the genesis block.
pub open spec fn spec_pre_genesis_hash() -> BlockHash {
    BlockHash(0, 0, 0, 0)
}

/// The all-zeros hash that stands before the genesis block: the previous
/// hash of the genesis header, and the tip hash of an empty store.
pub fn pre_genesis_hash() -> (r: BlockHash)
    ensures
        r == spec_pre_genesis_hash(),
{
    BlockHash(0, 0, 0, 0)
}

/// Returns whether `h` occurs in `v`.
pub fn contains_block_hash(v: &Vec<BlockHash>, h: BlockHash) -> (r: bool)
    ensures
        r == v@.contains(h),
{
    let mut i: usize = 0;
    while i < v.len()
        invariant
            i <= v.len(),
            forall|j: int| 0 <= j < i ==> v@[j] != h,
        decreases v.len() - i,
    {
        if v[i] == h {
            return true;
        }
        i = i + 1;
    }
    false
}

/// A transparent address: its kind and its 20-byte hash.
#[derive(Clone, Copy, Debug, PartialEq, Eq, Structural, Hash)]
pub struct Address {
    pub kind: u8,
    pub hash_head: u64,
    pub hash_mid: u64,
    pub hash_tail: u32,
}

/// A 32-byte note commitment, held as four 64-bit words.
#[derive(Clone, Copy, Debug, PartialEq, Eq, Structural, Hash)]
pub struct NoteCommitment(pub u64, pub u64, pub u64, pub u64);

/// A block height.
pub type Height = u32;

/// Where a transaction stands: the height of its block and its index there.
#[derive(Clone, Copy, Debug, PartialEq, Eq, Structural, Hash)]
pub struct TransactionLocation {
    pub height: Height,
    pub index: usize,
}

/// Where a transparent output stands: its transaction and its index there.
#[derive(Clone, Copy, Debug, PartialEq, Eq, Structural, Hash)]
pub struct OutputLocation {
    pub transaction_location: TransactionLocation,
    pub output_index: usize,
}

/// The wire-level reference to an output: its transaction hash and index.
#[derive(Clone, Copy, Debug, PartialEq, Eq, Structural, Hash)]
pub struct OutPoint {
    pub hash: TxHash,
    pub index: usize,
}

/// A transparent output: its value and the address it pays to.
#[derive(Clone, Copy, Debug, PartialEq, Eq, Structural, Hash)]
pub struct Output {
    pub value: u64,
    pub address: Address,
}

/// An unspent transparent output, with the height that created it.
#[derive(Clone, Copy, Debug, PartialEq, Eq, Structural, Hash)]
pub struct Utxo {
    pub output: Output,
    pub height: Height,
    pub from_coinbase: bool,
}

/// A block header.
#[derive(Clone, Copy, Debug, PartialEq, Eq, Structural, Hash)]
pub struct Header {
    pub previous_block_hash: BlockHash,
    pub merkle_root: TxHash,
    pub time: u32,
}

/// Either a block hash or a block height.
#[derive(Clone, Copy, Debug, PartialEq, Eq, Structural, Hash)]
pub enum HashOrHeight {
    Hash(BlockHash),
    Height(Height),
}

/// A transaction: its transparent inputs and outputs, the note commitments
/// it adds to each shielded pool, and its net flow into each shielded pool.
#[derive(Clone, Debug, PartialEq, Eq)]
pub struct Transaction {
    pub inputs: Vec<OutPoint>,
    pub outputs: Vec<Output>,
    pub sprout_notes: Vec<NoteCommitment>,
    pub sapling_notes: Vec<NoteCommitment>,
    pub orchard_notes: Vec<NoteCommitment>,
    pub sprout_value_delta: i64,
    pub sapling_value_delta: i64,
    pub orchard_value_delta: i64,
}

/// The mathematical content of a transaction.
pub struct TransactionView {
    pub inputs: Seq<OutPoint>,
    pub outputs: Seq<Output>,
    pub sprout_notes: Seq<NoteCommitment>,
    pub sapling_notes: Seq<NoteCommitment>,
    pub orchard_notes: Seq<NoteCommitment>,
    pub sprout_value_delta: i64,
    pub sapling_value_delta: i64,
    pub orchard_value_delta: i64,
}

impl View for Transaction {
    type V = TransactionView;

    open spec fn view(&self) -> TransactionView {
        TransactionView {
            inputs: self.inputs@,
            outputs: self.outputs@,
            sprout_notes: self.sprout_notes@,
            sapling_notes: self.sapling_notes@,
            orchard_notes: self.orchard_notes@,
            sprout_value_delta: self.sprout_value_delta,
            sapling_value_delta: self.sapling_value_delta,
            orchard_value_delta: self.orchard_value_delta,
        }
    }
}

impl Transaction {
    /// A copy with the same content.
    pub fn copy(&self) -> (r: Transaction)
        ensures
            r@ == self@,
    {
        Transaction {
            inputs: self.inputs.clone(),
            outputs: self.outputs.clone(),
            sprout_notes: self.sprout_notes.clone(),
            sapling_notes: self.sapling_notes.clone(),
            orchard_notes: self.orchard_notes.clone(),
            sprout_value_delta: self.sprout_value_delta,
            sapling_value_delta: self.sapling_value_delta,
            orchard_value_delta: self.orchard_value_delta,
        }
    }
}

/// The views of a sequence of transactions.
pub open spec fn tx_views(txs: Seq<Transaction>) -> Seq<TransactionView> {
    txs.map_values(|t: Transaction| t@)
}

/// Copies a list of transactions.
pub fn copy_transactions(txs: &Vec<Transaction>) -> (r: Vec<Transaction>)
    ensures
        tx_views(r@) == tx_views(txs@),
{
    let mut r: Vec<Transaction> = Vec::new();
    let mut i: usize = 0;
    while i < txs.len()
        invariant
            i <= txs.len(),
            r@.len() == i,
            tx_views(r@) == tx_views(txs@.subrange(0, i as int)),
        decreases txs.len() - i,
    {
        let t = txs[i].copy();
        let ghost before = r@;
        r.push(t);
        assert forall|j: int| 0 <= j < i + 1 implies #[trigger] tx_views(r@)[j] == tx_views(txs@.subrange(0, i + 1))[j] by {
            if j < i {
                assert(r@[j] == before[j]);
                assert(tx_views(before)[j] == tx_views(txs@.subrange(0, i as int))[j]);
            }
        }
        assert(tx_views(r@) =~= tx_views(txs@.subrange(0, i + 1)));
        i = i + 1;
    }
    assert(txs@.subrange(0, txs.len() as int) =~= txs@);
    r
}

/// A block: a header and its transactions.
#[derive(Clone, Debug, PartialEq, Eq)]
pub struct Block {
    pub header: Header,
    pub transactions: Vec<Transaction>,
}

/// The shielded note commitment pools.
#[derive(Clone, Copy, Debug, PartialEq, Eq, Structural)]
pub enum Pool {
    Sprout,
    Sapling,
    Orchard,
}

/// An append-only note commitment tree, held as its leaves in order.
#[derive(Clone, Debug, PartialEq, Eq)]
pub struct NoteCommitmentTree {
    pub leaves: Vec<NoteCommitment>,
}

/// The note commitment trees of the three pools after one block.
#[derive(Clone, Debug, PartialEq, Eq)]
pub struct NoteCommitmentTrees {
    pub sprout: NoteCommitmentTree,
    pub sapling: NoteCommitmentTree,
    pub orchard: NoteCommitmentTree,
}

/// Running totals of each value pool; none is ever negative.
#[derive(Clone, Copy, Debug, PartialEq, Eq, Structural, Hash)]
pub struct ValueBalance {
    pub transparent: u128,
    pub sprout: u128,
    pub sapling: u128,
    pub orchard: u128,
}

impl ValueBalance {
    /// All pools empty.
    pub open spec fn spec_zero() -> ValueBalance {
        ValueBalance { transparent: 0, sprout: 0, sapling: 0, orchard: 0 }
    }

    /// All pools empty.
    pub fn zero() -> (r: ValueBalance)
        ensures
            r == ValueBalance::spec_zero(),
    {
        ValueBalance { transparent: 0, sprout: 0, sapling: 0, orchard: 0 }
    }
}

/// A block that has passed semantic verification, with the hashes computed
/// from it.
#[derive(Clone, Debug, PartialEq, Eq)]
pub struct VerifiedBlock {
    pub block: Block,
    pub hash: BlockHash,
    pub height: Height,
    pub transaction_hashes: Vec<TxHash>,
}

} // verus!

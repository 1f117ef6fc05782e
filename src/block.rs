//! Blocks and the lifecycle tags of transactions.
use crate::balance::BalanceTable;
use crate::blockhash::{block_hash, Blockhash};
use crate::transaction::{txs_encoding, txs_table, views, Transaction, TxView};
use vstd::prelude::*;

verus! {

/// What a block is, with hashes as bytes and transactions as views.
pub struct BlockView {
    pub index: u64,
    pub blockhash: Seq<u8>,
    pub previous_blockhash: Seq<u8>,
    pub transactions: Seq<TxView>,
    pub nonce: u64,
}

/// The bytes that the genesis block names as its parent: "genesis".
pub open spec fn genesis_parent() -> Seq<u8> {
    seq![103u8, 101u8, 110u8, 101u8, 115u8, 105u8, 115u8]
}

/// What the genesis block is.
pub open spec fn genesis_view() -> BlockView {
    BlockView {
        index: 0,
        blockhash: block_hash(0, genesis_parent(), Seq::empty(), 0),
        previous_blockhash: genesis_parent(),
        transactions: Seq::empty(),
        nonce: 0,
    }
}

/// A sealed block: transactions linked to a parent by hash.
#[derive(Debug)]
pub struct Block {
    pub index: u64,
    pub blockhash: Blockhash,
    pub previous_blockhash: Blockhash,
    pub transactions: Vec<Transaction>,
    pub nonce: u64,
}

impl View for Block {
    type V = BlockView;

    open spec fn view(&self) -> BlockView {
        BlockView {
            index: self.index,
            blockhash: self.blockhash@,
            previous_blockhash: self.previous_blockhash@,
            transactions: views(self.transactions@),
            nonce: self.nonce,
        }
    }
}

/// A copy of a list of transactions.
pub fn clone_txs(txs: &Vec<Transaction>) -> (r: Vec<Transaction>)
    ensures
        views(r@) == views(txs@),
{
    let mut r: Vec<Transaction> = Vec::new();
    let mut i: usize = 0;
    while i < txs.len()
        invariant
            i <= txs@.len(),
            views(r@) =~= views(txs@.subrange(0, i as int)),
        decreases txs@.len() - i,
    {
        let ghost prev = r@;
        let c = txs[i].clone();
        r.push(c);
        proof {
            assert(r@ == prev.push(c));
            assert(views(r@) =~= views(prev).push(txs@[i as int]@));
            assert(views(txs@.subrange(0, i + 1)) =~= views(txs@.subrange(0, i as int)).push(
                txs@[i as int]@,
            ));
        }
        i = i + 1;
    }
    assert(txs@.subrange(0, txs@.len() as int) =~= txs@);
    r
}

impl Clone for Block {
    fn clone(&self) -> (r: Self)
        ensures
            r@ == self@,
    {
        Block {
            index: self.index,
            blockhash: self.blockhash.clone(),
            previous_blockhash: self.previous_blockhash.clone(),
            transactions: clone_txs(&self.transactions),
            nonce: self.nonce,
        }
    }
}

impl PartialEq for Block {
    fn eq(&self, o: &Block) -> (r: bool) {
        if !(self.index == o.index && self.nonce == o.nonce && self.blockhash == o.blockhash
            && self.previous_blockhash == o.previous_blockhash && self.transactions.len()
            == o.transactions.len()) {
            proof {
                if self@ == o@ {
                    assert(views(self.transactions@).len() == self.transactions@.len());
                    assert(views(o.transactions@).len() == o.transactions@.len());
                }
            }
            return false;
        }
        let mut i: usize = 0;
        while i < self.transactions.len()
            invariant
                self.transactions@.len() == o.transactions@.len(),
                i <= self.transactions@.len(),
                forall|j: int| 0 <= j < i ==> self.transactions@[j]@ == o.transactions@[j]@,
            decreases self.transactions@.len() - i,
        {
            if self.transactions[i] != o.transactions[i] {
                proof {
                    assert(views(self.transactions@)[i as int] != views(o.transactions@)[i as int]);
                }
                return false;
            }
            i = i + 1;
        }
        assert(views(self.transactions@) =~= views(o.transactions@));
        true
    }
}

impl vstd::std_specs::cmp::PartialEqSpecImpl for Block {
    open spec fn obeys_eq_spec() -> bool {
        true
    }

    open spec fn eq_spec(&self, o: &Block) -> bool {
        self@ == o@
    }
}

impl Block {
    /// A block over `transactions`, hashed from its contents.
    pub fn create_block(
        index: u64,
        previous_blockhash: &Blockhash,
        transactions: Vec<Transaction>,
        nonce: u64,
    ) -> (r: Block)
        ensures
            r.index == index,
            r.nonce == nonce,
            r@.previous_blockhash == previous_blockhash@,
            r@.transactions == views(transactions@),
            r@.blockhash == block_hash(
                index,
                previous_blockhash@,
                txs_encoding(views(transactions@)),
                nonce,
            ),
    {
        let blockhash = Blockhash::from_data(index, previous_blockhash, &transactions, nonce);
        Block {
            index,
            blockhash,
            transactions,
            previous_blockhash: previous_blockhash.clone(),
            nonce,
        }
    }

    /// The hash that this block's contents give.
    pub fn compute_blockhash(&self) -> (r: Blockhash)
        ensures
            r@ == block_hash(
                self.index,
                self@.previous_blockhash,
                txs_encoding(self@.transactions),
                self.nonce,
            ),
    {
        Blockhash::from_data(self.index, &self.previous_blockhash, &self.transactions, self.nonce)
    }

    /// The first block: index 0, no transactions, nonce 0, parent "genesis".
    pub fn genesis() -> (r: Block)
        ensures
            r@ == genesis_view(),
            r.index == 0,
            r.nonce == 0,
            r@.transactions.len() == 0,
            r@.previous_blockhash == genesis_parent(),
            r@.blockhash == block_hash(0, genesis_parent(), Seq::empty(), 0),
    {
        let mut bytes: Vec<u8> = Vec::new();
        bytes.push(103);
        bytes.push(101);
        bytes.push(110);
        bytes.push(101);
        bytes.push(115);
        bytes.push(105);
        bytes.push(115);
        assert(bytes@ =~= genesis_parent());
        let previous_blockhash = Blockhash(bytes);
        let transactions: Vec<Transaction> = Vec::new();
        assert(views(transactions@) =~= Seq::<TxView>::empty());
        let r = Block {
            index: 0,
            blockhash: Blockhash::from_data(0, &previous_blockhash, &transactions, 0),
            transactions,
            previous_blockhash,
            nonce: 0,
        };
        assert(r@.transactions =~= Seq::<TxView>::empty());
        r
    }

    /// The per-account effects of the block's transactions, booked in order;
    /// `None` where a sum leaves `u64`.
    pub fn get_balance_deltas(&self) -> (r: Option<BalanceTable>)
        ensures
            match r {
                Some(t) => t.wf() && txs_table(self@.transactions) == Some(t@),
                None => txs_table(self@.transactions) is None,
            },
    {
        Transaction::get_balance_deltas_from_txs(&self.transactions)
    }
}

impl Default for Block {
    fn default() -> (r: Self)
        ensures
            r@ == genesis_view(),
            r.index == 0,
            r@.transactions.len() == 0,
            r@.previous_blockhash == genesis_parent(),
            r@.blockhash == block_hash(0, genesis_parent(), Seq::empty(), 0),
    {
        Block::genesis()
    }
}

/// A transaction tagged with where it stands in its lifecycle.
#[derive(Debug)]
pub enum TransactionState {
    Success(Transaction),
    Fail(Transaction),
    Pending(Transaction),
}

impl TransactionState {
    /// The transaction under the tag.
    pub open spec fn tx(&self) -> Transaction {
        match self {
            TransactionState::Success(t) => *t,
            TransactionState::Fail(t) => *t,
            TransactionState::Pending(t) => *t,
        }
    }

    /// The transaction under the tag.
    pub fn into_tx(&self) -> (r: &Transaction)
        ensures
            *r == self.tx(),
    {
        match self {
            TransactionState::Success(t) => t,
            TransactionState::Fail(t) => t,
            TransactionState::Pending(t) => t,
        }
    }

    /// The same transaction, marked as included. Only a pending (or already
    /// included) transaction becomes `Success`; a failed one stays `Fail`.
    pub fn success(self) -> (r: Self)
        ensures
            r.tx() == self.tx(),
            self is Fail ==> r is Fail,
            !(self is Fail) ==> r is Success,
    {
        match self {
            TransactionState::Success(t) => TransactionState::Success(t),
            TransactionState::Fail(t) => TransactionState::Fail(t),
            TransactionState::Pending(t) => TransactionState::Success(t),
        }
    }

    /// Whether the transaction still waits for admission.
    pub fn is_pending(&self) -> (r: bool)
        ensures
            r == self is Pending,
    {
        match self {
            TransactionState::Pending(_) => true,
            _ => false,
        }
    }

    /// The concatenated encodings of the tagged transactions.
    pub fn get_raw_txs(txs: &Vec<TransactionState>) -> (r: Vec<u8>)
        ensures
            r@ == txs_encoding(txs@.map_values(|s: TransactionState| s.tx()@)),
    {
        let mut plain: Vec<Transaction> = Vec::new();
        let mut i: usize = 0;
        while i < txs.len()
            invariant
                i <= txs@.len(),
                views(plain@) =~= txs@.subrange(0, i as int).map_values(
                    |s: TransactionState| s.tx()@,
                ),
            decreases txs@.len() - i,
        {
            let ghost prev = plain@;
            let c = txs[i].into_tx().clone();
            plain.push(c);
            proof {
                assert(plain@ == prev.push(c));
                assert(views(plain@) =~= views(prev).push(txs@[i as int].tx()@));
                assert(txs@.subrange(0, i + 1).map_values(|s: TransactionState| s.tx()@)
                    =~= txs@.subrange(0, i as int).map_values(|s: TransactionState| s.tx()@).push(
                    txs@[i as int].tx()@,
                ));
            }
            i = i + 1;
        }
        assert(txs@.subrange(0, txs@.len() as int) =~= txs@);
        Transaction::get_raw_txs(&plain)
    }
}

} // verus!

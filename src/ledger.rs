//! Block assembly: choosing mempool transactions that the payers can cover,
//! searching a nonce, and sealing the block into the chain.
use crate::balance::{BalanceDelta, BalanceTable};
use crate::block::Block;
use crate::blockchain::Blockchain;
use crate::blockhash::{block_hash, meets_difficulty, Blockhash};
use crate::err::GulfStreamError;
use crate::keys::PublicKey;
use crate::blockchain::{chosen_parent, promote};
use crate::block::{genesis_view, BlockView};
use crate::link::{balances_spec, chain_balance, find_spec, insert_spec, LinkView};
use crate::transaction::{involved, tx_step, tx_valid, txs_encoding, txs_involved, views, MessageView, Transaction, TxView};
use vstd::prelude::*;

verus! {

/// The transactions of `pool` meant for height `h`, in pool order.
pub open spec fn candidates(pool: Seq<TxView>, h: int) -> Seq<TxView>
    decreases pool.len(),
{
    if pool.len() == 0 {
        Seq::empty()
    } else if pool.last().blockheight == h {
        candidates(pool.drop_last(), h).push(pool.last())
    } else {
        candidates(pool.drop_last(), h)
    }
}

/// The first position, from `i` on, whose gas is below `g`.
pub open spec fn gas_split(s: Seq<TxView>, g: u64, i: int) -> int
    decreases s.len() - i,
{
    if i < 0 || i >= s.len() {
        s.len() as int
    } else if s[i].gas < g {
        i
    } else {
        gas_split(s, g, i + 1)
    }
}

/// Orders by gas, highest first, equal gas in arrival order.
pub open spec fn sort_by_gas(s: Seq<TxView>) -> Seq<TxView>
    decreases s.len(),
{
    if s.len() == 0 {
        Seq::empty()
    } else {
        let r = sort_by_gas(s.drop_last());
        r.insert(gas_split(r, s.last().gas, 0), s.last())
    }
}

/// Transactions of the pool meant for height `height`, in pool order.
pub fn select_candidates(pool: &Vec<Transaction>, height: u64) -> (r: Vec<Transaction>)
    ensures
        views(r@) == candidates(views(pool@), height as int),
{
    let mut r: Vec<Transaction> = Vec::new();
    let mut i: usize = 0;
    while i < pool.len()
        invariant
            i <= pool@.len(),
            views(r@) == candidates(views(pool@.subrange(0, i as int)), height as int),
        decreases pool@.len() - i,
    {
        let ghost prev = r@;
        proof {
            let s = views(pool@.subrange(0, i + 1));
            assert(s.drop_last() =~= views(pool@.subrange(0, i as int)));
            assert(s.last() == pool@[i as int]@);
        }
        if pool[i].blockheight == height {
            let c = pool[i].clone();
            r.push(c);
            proof {
                assert(views(r@) =~= views(prev).push(pool@[i as int]@));
            }
        }
        i = i + 1;
    }
    assert(pool@.subrange(0, pool@.len() as int) =~= pool@);
    r
}

/// Orders transactions by gas, highest first; equal gas keeps arrival order.
pub fn sort_by_gas_desc(txs: &Vec<Transaction>) -> (r: Vec<Transaction>)
    ensures
        views(r@) == sort_by_gas(views(txs@)),
{
    let mut r: Vec<Transaction> = Vec::new();
    let ghost all = views(txs@);
    let mut i: usize = 0;
    while i < txs.len()
        invariant
            all == views(txs@),
            i <= txs@.len(),
            views(r@) == sort_by_gas(all.subrange(0, i as int)),
        decreases txs@.len() - i,
    {
        let t = txs[i].clone();
        let mut pos: usize = 0;
        while pos < r.len() && r[pos].gas >= t.gas
            invariant
                pos <= r@.len(),
                gas_split(views(r@), t.gas, 0) == gas_split(views(r@), t.gas, pos as int),
            decreases r@.len() - pos,
        {
            pos = pos + 1;
        }
        let ghost before = views(r@);
        r.insert(pos, t);
        proof {
            assert(views(r@) =~= before.insert(pos as int, all[i as int]));
            let s = all.subrange(0, i + 1);
            assert(s.drop_last() =~= all.subrange(0, i as int));
        }
        i = i + 1;
    }
    assert(all.subrange(0, txs@.len() as int) =~= all);
    r
}

/// Whether a running balance table lets an account take delta `d`: the sum
/// must stay within `u64`, and a negative delta must leave a known balance
/// at or above zero.
pub open spec fn entry_admits(bal: Map<Seq<u8>, BalanceDelta>, k: Seq<u8>, d: BalanceDelta) -> bool {
    &&& bal.contains_key(k) ==> d.can_add(bal[k])
    &&& d.nonneg() || (bal.contains_key(k) && d.spec_add(bal[k]).nonneg())
}

/// Whether every account of a transaction's table admits its delta.
pub open spec fn admits(bal: Map<Seq<u8>, BalanceDelta>, txd: Map<Seq<u8>, BalanceDelta>) -> bool {
    forall|k: Seq<u8>| #[trigger] txd.contains_key(k) ==> entry_admits(bal, k, txd[k])
}

/// The running balance of `k` after taking `d`: the sum with its balance so
/// far, or `d` itself for an account not yet known.
pub open spec fn entry_value(bal: Map<Seq<u8>, BalanceDelta>, k: Seq<u8>, d: BalanceDelta) -> BalanceDelta {
    if bal.contains_key(k) {
        d.spec_add(bal[k])
    } else {
        d
    }
}

/// The running balances after an admitted transaction.
pub open spec fn apply(bal: Map<Seq<u8>, BalanceDelta>, txd: Map<Seq<u8>, BalanceDelta>) -> Map<
    Seq<u8>,
    BalanceDelta,
> {
    Map::new(
        |k: Seq<u8>| bal.contains_key(k) || txd.contains_key(k),
        |k: Seq<u8>|
            if txd.contains_key(k) {
                entry_value(bal, k, txd[k])
            } else {
                bal[k]
            },
    )
}

/// Greedy admission in list order: each transaction whose effects the
/// running balances admit is taken and booked; the others are passed over.
pub open spec fn greedy(txs: Seq<TxView>, bal: Map<Seq<u8>, BalanceDelta>) -> (Seq<TxView>, Map<Seq<u8>, BalanceDelta>)
    decreases txs.len(),
{
    if txs.len() == 0 {
        (Seq::empty(), bal)
    } else {
        let (acc, b) = greedy(txs.drop_last(), bal);
        let t = txs.last();
        match tx_step(Some(Map::empty()), t) {
            Some(d) => if admits(b, d) {
                (acc.push(t), apply(b, d))
            } else {
                (acc, b)
            },
            None => (acc, b),
        }
    }
}

/// Whether the running balances admit every effect in `txd`.
pub fn admits_all(bal: &BalanceTable, txd: &BalanceTable) -> (r: bool)
    requires
        bal.wf(),
        txd.wf(),
    ensures
        r == admits(bal@, txd@),
{
    let mut i: usize = 0;
    proof {
        txd.lemma_entries();
    }
    while i < txd.len()
        invariant
            bal.wf(),
            txd.wf(),
            i <= txd.size(),
            forall|j: int| 0 <= j < i ==> #[trigger] entry_admits(bal@, txd.key_spec(j), txd@[txd.key_spec(j)]),
            forall|k: Seq<u8>| #[trigger]
                txd@.contains_key(k) ==> exists|j: int| 0 <= j < txd.size() && txd.key_spec(j) == k,
            forall|j: int| 0 <= j < txd.size() ==> #[trigger] txd@.contains_key(txd.key_spec(j)),
        decreases txd.size() - i,
    {
        let (k, d) = txd.entry(i);
        let ok = match bal.get(k) {
            Some(b) => match d.checked_add(b) {
                Some(s) => d.is_positive_or_nil() || s.is_positive_or_nil(),
                None => false,
            },
            None => d.is_positive_or_nil(),
        };
        if !ok {
            assert(!entry_admits(bal@, txd.key_spec(i as int), txd@[txd.key_spec(i as int)]));
            return false;
        }
        i = i + 1;
    }
    assert forall|k: Seq<u8>| #[trigger] txd@.contains_key(k) implies entry_admits(bal@, k, txd@[k]) by {
        let j = choose|j: int| 0 <= j < txd.size() && txd.key_spec(j) == k;
        assert(entry_admits(bal@, txd.key_spec(j), txd@[txd.key_spec(j)]));
    }
    true
}

/// Books an admitted transaction's effects on the running balances.
pub fn apply_all(bal: &mut BalanceTable, txd: &BalanceTable)
    requires
        old(bal).wf(),
        txd.wf(),
        admits(old(bal)@, txd@),
    ensures
        final(bal).wf(),
        final(bal)@ == apply(old(bal)@, txd@),
{
    let ghost b0 = bal@;
    proof {
        txd.lemma_entries();
    }
    let mut i: usize = 0;
    while i < txd.len()
        invariant
            bal.wf(),
            txd.wf(),
            admits(b0, txd@),
            i <= txd.size(),
            forall|k: Seq<u8>| #[trigger]
                txd@.contains_key(k) ==> exists|j: int| 0 <= j < txd.size() && txd.key_spec(j) == k,
            forall|j: int| 0 <= j < txd.size() ==> #[trigger] txd@.contains_key(txd.key_spec(j)),
            forall|a: int, c: int|
                0 <= a < txd.size() && 0 <= c < txd.size() && a != c ==> txd.key_spec(a)
                    != txd.key_spec(c),
            forall|k: Seq<u8>| #[trigger]
                bal@.contains_key(k) <==> (b0.contains_key(k) || exists|j: int|
                    0 <= j < i && txd.key_spec(j) == k),
            forall|k: Seq<u8>| #[trigger]
                bal@.contains_key(k) ==> bal@[k] == if exists|j: int|
                    0 <= j < i && txd.key_spec(j) == k {
                    entry_value(b0, k, txd@[k])
                } else {
                    b0[k]
                },
        decreases txd.size() - i,
    {
        let (k, d) = txd.entry(i);
        let ghost kv = k@;
        assert(!exists|j: int| 0 <= j < i && txd.key_spec(j) == kv) by {
            if exists|j: int| 0 <= j < i && txd.key_spec(j) == kv {
                let j = choose|j: int| 0 <= j < i && txd.key_spec(j) == kv;
                assert(txd.key_spec(j) != txd.key_spec(i as int));
            }
        }
        assert(entry_admits(b0, kv, d));
        let newv = match bal.get(k) {
            Some(b) => d.add(b),
            None => d,
        };
        bal.insert(k, newv);
        proof {
            assert forall|x: Seq<u8>|
                (b0.contains_key(x) || exists|j: int| 0 <= j < i + 1 && txd.key_spec(j) == x)
                implies #[trigger] bal@.contains_key(x) by {
                if exists|j: int| 0 <= j < i + 1 && txd.key_spec(j) == x {
                    let j = choose|j: int| 0 <= j < i + 1 && txd.key_spec(j) == x;
                    if j < i {
                        assert(exists|j2: int| 0 <= j2 < i && txd.key_spec(j2) == x);
                    }
                }
            }
            assert forall|x: Seq<u8>| #[trigger]
                bal@.contains_key(x) implies (b0.contains_key(x) || exists|j: int|
                    0 <= j < i + 1 && txd.key_spec(j) == x) by {
                if x == kv {
                    assert(txd.key_spec(i as int) == x);
                } else {
                    if exists|j: int| 0 <= j < i && txd.key_spec(j) == x {
                        let j = choose|j: int| 0 <= j < i && txd.key_spec(j) == x;
                        assert(0 <= j < i + 1 && txd.key_spec(j) == x);
                    }
                }
            }
            assert forall|x: Seq<u8>| #[trigger]
                bal@.contains_key(x) implies bal@[x] == if exists|j: int|
                    0 <= j < i + 1 && txd.key_spec(j) == x {
                    entry_value(b0, x, txd@[x])
                } else {
                    b0[x]
                } by {
                if x == kv {
                    assert(txd.key_spec(i as int) == x);
                } else {
                    if exists|j: int| 0 <= j < i + 1 && txd.key_spec(j) == x {
                        let j = choose|j: int| 0 <= j < i + 1 && txd.key_spec(j) == x;
                        assert(j != i);
                        assert(exists|j2: int| 0 <= j2 < i && txd.key_spec(j2) == x);
                    }
                    if exists|j: int| 0 <= j < i && txd.key_spec(j) == x {
                        let j = choose|j: int| 0 <= j < i && txd.key_spec(j) == x;
                        assert(0 <= j < i + 1 && txd.key_spec(j) == x);
                    }
                }
            }
        }
        i = i + 1;
    }
    proof {
        let m = apply(b0, txd@);
        assert forall|x: Seq<u8>| #[trigger] bal@.contains_key(x) <==> m.contains_key(x) by {
            if txd@.contains_key(x) {
                let j = choose|j: int| 0 <= j < txd.size() && txd.key_spec(j) == x;
                assert(0 <= j < i && txd.key_spec(j) == x);
            }
        }
        assert forall|x: Seq<u8>| #[trigger] bal@.contains_key(x) implies bal@[x] == m[x] by {
            if txd@.contains_key(x) {
                let j = choose|j: int| 0 <= j < txd.size() && txd.key_spec(j) == x;
                assert(0 <= j < i && txd.key_spec(j) == x);
            }
        }
        assert(bal@ =~= m);
    }
}

/// Takes, in list order, each transaction whose effects the running
/// balances admit, booking its effects as it goes.
pub fn admit_transactions(txs: &Vec<Transaction>, balances: &mut BalanceTable) -> (r: Vec<Transaction>)
    requires
        old(balances).wf(),
    ensures
        final(balances).wf(),
        views(r@) == greedy(views(txs@), old(balances)@).0,
        final(balances)@ == greedy(views(txs@), old(balances)@).1,
{
    let ghost b0 = balances@;
    let mut r: Vec<Transaction> = Vec::new();
    let mut i: usize = 0;
    while i < txs.len()
        invariant
            i <= txs@.len(),
            balances.wf(),
            (views(r@), balances@) == greedy(views(txs@.subrange(0, i as int)), b0),
        decreases txs@.len() - i,
    {
        proof {
            let s = views(txs@.subrange(0, i + 1));
            assert(s.drop_last() =~= views(txs@.subrange(0, i as int)));
            assert(s.last() == txs@[i as int]@);
        }
        match txs[i].get_balance_deltas() {
            Some(d) => {
                if admits_all(balances, &d) {
                    apply_all(balances, &d);
                    let ghost prev = r@;
                    let c = txs[i].clone();
                    r.push(c);
                    proof {
                        assert(views(r@) =~= views(prev).push(txs@[i as int]@));
                    }
                }
            },
            None => {},
        }
        i = i + 1;
    }
    assert(txs@.subrange(0, txs@.len() as int) =~= txs@);
    r
}

/// The first nonce, from `n` on, whose hash meets the difficulty.
pub open spec fn first_nonce(index: u64, previous: Seq<u8>, raw: Seq<u8>, difficulty: nat, n: int) -> Option<u64>
    decreases u64::MAX - n,
{
    if n < 0 || n >= u64::MAX {
        None
    } else if meets_difficulty(block_hash(index, previous, raw, n as u64), difficulty) {
        Some(n as u64)
    } else {
        first_nonce(index, previous, raw, difficulty, n + 1)
    }
}

/// Searches nonces upward from zero for one whose block hash meets the
/// difficulty; `None` once every nonce below `u64::MAX` has failed.
pub fn find_nonce(index: u64, previous_blockhash: &Blockhash, raw_txs: &Vec<u8>, difficulty: usize) -> (r: Option<(Blockhash, u64)>)
    requires
        difficulty <= 32,
    ensures
        match first_nonce(index, previous_blockhash@, raw_txs@, difficulty as nat, 0) {
            Some(n) => r matches Some(p) && p.1 == n && p.0@ == block_hash(index, previous_blockhash@, raw_txs@, n),
            None => r is None,
        },
{
    let mut nonce: u64 = 0;
    while nonce < u64::MAX
        invariant
            difficulty <= 32,
            first_nonce(index, previous_blockhash@, raw_txs@, difficulty as nat, 0) == first_nonce(
                index,
                previous_blockhash@,
                raw_txs@,
                difficulty as nat,
                nonce as int,
            ),
        decreases u64::MAX - nonce,
    {
        let blockhash = Blockhash::from_raw_data(index, previous_blockhash, raw_txs, nonce);
        if blockhash.is_valid(difficulty) {
            return Some((blockhash, nonce));
        }
        nonce = nonce + 1;
    }
    None
}

/// The pool after removing, for each admitted transaction in turn, the first
/// pooled transaction with the same signature, the last one taking its place.
pub open spec fn remove_admitted_spec(pool: Seq<TxView>, admitted: Seq<TxView>) -> Seq<TxView>
    decreases admitted.len(),
{
    if admitted.len() == 0 {
        pool
    } else {
        let p = remove_admitted_spec(pool, admitted.drop_last());
        match first_signature(p, admitted.last().signature, 0) {
            Some(i) => p.update(i, p.last()).drop_last(),
            None => p,
        }
    }
}

/// The first position, from `i` on, of a transaction with signature `sig`.
pub open spec fn first_signature(p: Seq<TxView>, sig: Seq<u8>, i: int) -> Option<int>
    decreases p.len() - i,
{
    if i < 0 || i >= p.len() {
        None
    } else if p[i].signature == sig {
        Some(i)
    } else {
        first_signature(p, sig, i + 1)
    }
}

/// Removes the admitted transactions from the pool, matching by signature.
pub fn remove_admitted(pool: &mut Vec<Transaction>, admitted: &Vec<Transaction>)
    ensures
        views(final(pool)@) == remove_admitted_spec(views(old(pool)@), views(admitted@)),
{
    let mut i: usize = 0;
    while i < admitted.len()
        invariant
            i <= admitted@.len(),
            views(pool@) == remove_admitted_spec(views(old(pool)@), views(admitted@.subrange(0, i as int))),
        decreases admitted@.len() - i,
    {
        let ghost p = views(pool@);
        proof {
            let s = views(admitted@.subrange(0, i + 1));
            assert(s.drop_last() =~= views(admitted@.subrange(0, i as int)));
            assert(s.last() == admitted@[i as int]@);
        }
        let mut j: usize = 0;
        let mut found = false;
        let ghost sig = admitted@[i as int]@.signature;
        while !found && j < pool.len()
            invariant
                i < admitted@.len(),
                sig == admitted@[i as int]@.signature,
                p == views(pool@),
                j <= pool@.len(),
                !found ==> first_signature(p, sig, 0) == first_signature(p, sig, j as int),
                found ==> j < pool@.len() && first_signature(p, sig, 0) == Some(j as int),
            decreases pool@.len() - j + (if found { 0int } else { 1int }),
        {
            if pool[j].signature == admitted[i].signature {
                found = true;
            } else {
                j = j + 1;
            }
        }
        if found {
            let ghost before = pool@;
            pool.swap_remove(j);
            proof {
                assert(pool@ == before.update(j as int, before.last()).drop_last());
                assert(views(pool@) =~= p.update(j as int, p.last()).drop_last());
            }
        }
        i = i + 1;
    }
    assert(admitted@.subrange(0, admitted@.len() as int) =~= admitted@);
}

/// The proof-of-work difficulty of assembled blocks.
pub const DIFFICULTY: usize = 1;

/// The block that assembly would seal on top of block `previous_index` with
/// hash `previous`, the balances being read at the earliest node of tree `v`
/// that holds that block: the pooled transactions for the next height,
/// highest gas first, admitted greedily, under the first nonce that meets the
/// difficulty. `None` where the pool is empty, the tree holds no such block,
/// a balance leaves `u64`, nothing is admitted, or no nonce works.
pub open spec fn build_plan(
    v: Seq<LinkView>,
    pool: Seq<TxView>,
    previous_index: u64,
    previous: Seq<u8>,
) -> Option<BlockView> {
    if pool.len() == 0 || previous_index == u64::MAX {
        None
    } else {
        match find_spec(v, 0, previous, previous_index) {
            Err(_) => None,
            Ok(at) => plan_at(v, at, pool, previous_index, previous),
        }
    }
}

/// The block of `build_plan`, with the balances read at node `at`.
pub open spec fn plan_at(
    v: Seq<LinkView>,
    at: int,
    pool: Seq<TxView>,
    previous_index: u64,
    previous: Seq<u8>,
) -> Option<BlockView> {
    let h = (previous_index + 1) as u64;
    let cands = sort_by_gas(candidates(pool, h as int));
    let ks = txs_involved(cands);
    if exists|i: int| 0 <= i < ks.len() && chain_balance(v, at, #[trigger] ks[i]) is None {
        None
    } else {
        let chosen = greedy(cands, balances_spec(v, at, ks)).0;
        if chosen.len() == 0 {
            None
        } else {
            match first_nonce(h, previous, txs_encoding(chosen), DIFFICULTY as nat, 0) {
                None => None,
                Some(n) => Some(
                    BlockView {
                        index: h,
                        blockhash: block_hash(h, previous, txs_encoding(chosen), n),
                        previous_blockhash: previous,
                        transactions: chosen,
                        nonce: n,
                    },
                ),
            }
        }
    }
}

/// The balance that admission checks for `pk`: its balance at node `at`
/// where that is a positive amount, else zero.
pub open spec fn spendable(v: Seq<LinkView>, at: int, pk: Seq<u8>) -> u64 {
    match chain_balance(v, at, pk) {
        Some(BalanceDelta::Pos(a)) => a,
        _ => 0,
    }
}

/// The ledger: the chain and the pool of transactions waiting for a block.
pub struct Ledger {
    pub state: Blockchain,
    pub mem_pool: Vec<Transaction>,
}

impl Ledger {
    /// A ledger at genesis with an empty pool.
    pub fn new() -> (r: Ledger)
        ensures
            r.state.wf(),
            r.state.tree_view() == seq![
                LinkView { parent: None, block: genesis_view(), children: Seq::empty() },
            ],
            r.state.tips() == seq![0usize],
            r.state.highest() == 0,
            r.mem_pool@.len() == 0,
    {
        Ledger { state: Blockchain::new(), mem_pool: Vec::new() }
    }

    /// Admits `tx` to the pool if it is valid against the payer's balance
    /// at the highest block; `TxIsNotValid` otherwise.
    pub fn submit_transaction(&mut self, tx: Transaction) -> (r: Result<(), GulfStreamError>)
        requires
            old(self).state.wf(),
        ensures
            final(self).state == old(self).state,
            ({
                let bal = spendable(old(self).state.tree_view(), old(self).state.highest(), tx@.payer);
                if tx_valid(tx@, bal) {
                    r is Ok && views(final(self).mem_pool@) == views(old(self).mem_pool@).push(tx@)
                } else {
                    r == Err::<(), GulfStreamError>(GulfStreamError::TxIsNotValid)
                        && final(self).mem_pool == old(self).mem_pool
                }
            }),
    {
        let at = self.state.get_latest_index();
        let bal = match self.state.tree().try_get_balance(at, &tx.payer) {
            Some(BalanceDelta::Pos(a)) => a,
            _ => 0,
        };
        if !tx.is_valid(bal) {
            return Err(GulfStreamError::TxIsNotValid);
        }
        let ghost before = self.mem_pool@;
        self.mem_pool.push(tx);
        proof {
            assert(views(self.mem_pool@) =~= views(before).push(tx@));
        }
        Ok(())
    }

    /// The balance of `pk` at the highest block; an error where it is
    /// negative or a sum leaves `u64`. A negative zero is a balance of zero.
    pub fn get_balance(&self, pk: &PublicKey) -> (r: Result<u64, GulfStreamError>)
        requires
            self.state.wf(),
        ensures
            match chain_balance(self.state.tree_view(), self.state.highest(), pk@) {
                Some(d) => if d.nonneg() {
                    r == Ok::<u64, GulfStreamError>(d.value() as u64)
                } else {
                    r is Err
                },
                None => r is Err,
            },
    {
        let at = self.state.get_latest_index();
        match self.state.tree().try_get_balance(at, pk) {
            Some(d) => match d.to_u64() {
                Some(a) => Ok(a),
                None => Err(GulfStreamError::Generic("Balance Negative".to_string())),
            },
            None => Err(GulfStreamError::Generic("Balance overflow".to_string())),
        }
    }

    /// The transactions on the chain up to the highest block, oldest first.
    pub fn get_transaction_history(&self) -> (r: Vec<Transaction>)
        requires
            self.state.wf(),
        ensures
            views(r@) == crate::link::chain_txs(self.state.tree_view(), self.state.highest()),
    {
        let at = self.state.get_latest_index();
        self.state.tree().get_transaction_history(at)
    }

    /// The highest block seen.
    pub fn get_latest_block(&self) -> (r: Block)
        requires
            self.state.wf(),
        ensures
            r@ == self.state.tree_view()[self.state.highest()].block,
    {
        self.state.get_latest().block.clone()
    }

    /// Assembles a block on top of block `previous_index` with hash
    /// `previous_blockhash` (see `build_plan`), with the balances of the node
    /// that holds that block, and inserts it into the chain.
    /// On success the admitted transactions leave the pool and the block is
    /// returned; where there is nothing to build, or the chain takes no such
    /// block, nothing changes and the result is `None`.
    pub fn try_build_block(&mut self, previous_index: u64, previous_blockhash: &Blockhash) -> (r: Option<Block>)
        requires
            old(self).state.wf(),
        ensures
            final(self).state.wf(),
            ({
                let v = old(self).state.tree_view();
                let plan = build_plan(v, views(old(self).mem_pool@), previous_index, previous_blockhash@);
                match plan {
                    None => r is None && final(self).state == old(self).state && final(self).mem_pool == old(self).mem_pool,
                    Some(bv) => match chosen_parent(v, old(self).state.tips(), bv) {
                        None => r is None && final(self).mem_pool == old(self).mem_pool
                            && final(self).state.tree_view() == v
                            && final(self).state.tips() == old(self).state.tips()
                            && final(self).state.highest() == old(self).state.highest(),
                        Some(p) => r matches Some(b) && b@ == bv
                            && views(final(self).mem_pool@) == remove_admitted_spec(views(old(self).mem_pool@), bv.transactions)
                            && final(self).state.tree_view() == insert_spec(v, p, bv)->Ok_0
                            && final(self).state.tips() == promote(old(self).state.tips(), v.len() as usize)
                            && final(self).state.tips()[0] as int == v.len()
                            && final(self).state.highest() == if v[old(self).state.highest()].block.index
                                <= bv.index {
                                v.len() as int
                            } else {
                                old(self).state.highest()
                            },
                    },
                }
            }),
    {
        if self.mem_pool.len() == 0 || previous_index == u64::MAX {
            return None;
        }
        let h = previous_index + 1;
        let cands = select_candidates(&self.mem_pool, h);
        let sorted = sort_by_gas_desc(&cands);
        let involved = Transaction::get_involved_pk_from_txs(&sorted);
        let at = match self.state.tree().try_find_block(0, previous_blockhash, previous_index) {
            Ok(p) => p,
            Err(_) => return None,
        };
        assert(build_plan(self.state.tree_view(), views(self.mem_pool@), previous_index, previous_blockhash@)
            == plan_at(self.state.tree_view(), at as int, views(self.mem_pool@), previous_index, previous_blockhash@));
        let ghost ks = txs_involved(views(sorted@));
        assert(involved@.map_values(|k: PublicKey| k@) == ks);
        let mut balances = match self.state.tree().get_balances(at, &involved) {
            Some(t) => t,
            None => {
                proof {
                    let i = choose|i: int|
                        0 <= i < involved@.len() && chain_balance(self.state.tree_view(), at as int, #[trigger] involved@[i]@) is None;
                    assert(ks[i] == involved@[i]@);
                }
                return None;
            },
        };
        proof {
            assert forall|i: int| 0 <= i < ks.len() implies chain_balance(self.state.tree_view(), at as int, #[trigger] ks[i]) is Some by {
                assert(ks[i] == involved@[i]@);
            }
        }
        let valid = admit_transactions(&sorted, &mut balances);
        if valid.len() == 0 {
            return None;
        }
        let raw = Transaction::get_raw_txs(&valid);
        let (blockhash, nonce) = match find_nonce(h, previous_blockhash, &raw, DIFFICULTY) {
            Some(p) => p,
            None => return None,
        };
        let block = Block {
            index: h,
            blockhash,
            previous_blockhash: previous_blockhash.clone(),
            transactions: valid,
            nonce,
        };
        match self.state.try_insert(&block) {
            Ok(()) => {
                remove_admitted(&mut self.mem_pool, &block.transactions);
                Some(block)
            },
            Err(_) => None,
        }
    }
}

/// Greedy admission over two transactions that touch disjoint accounts,
/// in either order: the one whose effects the balances do not admit is left
/// out and the other is taken.
pub proof fn lemma_greedy_skips_uncovered(t1: TxView, t2: TxView, bal: Map<Seq<u8>, BalanceDelta>)
    requires
        tx_step(Some(Map::empty()), t1) is Some,
        tx_step(Some(Map::empty()), t2) is Some,
        !admits(bal, tx_step(Some(Map::empty()), t1)->Some_0),
        admits(bal, tx_step(Some(Map::empty()), t2)->Some_0),
        forall|k: Seq<u8>|
            #[trigger] tx_step(Some(Map::empty()), t1)->Some_0.contains_key(k) ==> !tx_step(
                Some(Map::empty()),
                t2,
            )->Some_0.contains_key(k),
    ensures
        greedy(seq![t1, t2], bal).0 == seq![t2],
        greedy(seq![t2, t1], bal).0 == seq![t2],
{
    let d1 = tx_step(Some(Map::empty()), t1)->Some_0;
    let d2 = tx_step(Some(Map::empty()), t2)->Some_0;
    assert(seq![t1, t2].drop_last() =~= seq![t1]);
    assert(seq![t2, t1].drop_last() =~= seq![t2]);
    assert(seq![t1].drop_last() =~= Seq::<TxView>::empty());
    assert(seq![t2].drop_last() =~= Seq::<TxView>::empty());
    assert(seq![t1].last() == t1);
    assert(seq![t2].last() == t2);
    assert(seq![t1, t2].last() == t2);
    assert(seq![t2, t1].last() == t1);
    assert(greedy(Seq::<TxView>::empty(), bal) == (Seq::<TxView>::empty(), bal));
    assert(greedy(seq![t1], bal) == (Seq::<TxView>::empty(), bal));
    assert(greedy(seq![t1, t2], bal).0 =~= seq![t2]);
    let b2 = apply(bal, d2);
    assert(greedy(seq![t2], bal) == (seq![t2], b2)) by {
        assert(Seq::<TxView>::empty().push(t2) =~= seq![t2]);
    }
    let k = choose|k: Seq<u8>| #[trigger] d1.contains_key(k) && !entry_admits(bal, k, d1[k]);
    assert(!d2.contains_key(k));
    assert(b2.contains_key(k) == bal.contains_key(k));
    assert(bal.contains_key(k) ==> b2[k] == bal[k]);
    assert(!entry_admits(b2, k, d1[k]));
    assert(!admits(b2, d1));
}

proof fn lemma_two_candidates(t1: TxView, t2: TxView, h: int)
    requires
        t1.blockheight == h,
        t2.blockheight == h,
    ensures
        candidates(seq![t1, t2], h) == seq![t1, t2],
        sort_by_gas(seq![t1, t2]) == if t1.gas < t2.gas {
            seq![t2, t1]
        } else {
            seq![t1, t2]
        },
{
    let e = Seq::<TxView>::empty();
    assert(seq![t1, t2].drop_last() =~= seq![t1]);
    assert(seq![t1].drop_last() =~= e);
    assert(seq![t1].last() == t1);
    assert(seq![t1, t2].last() == t2);
    assert(candidates(e, h) == e);
    assert(e.push(t1) =~= seq![t1]);
    assert(candidates(seq![t1], h) =~= seq![t1]);
    assert(candidates(seq![t1, t2], h) =~= seq![t1, t2]);
    assert(sort_by_gas(e) == e);
    assert(gas_split(e, t1.gas, 0) == 0);
    assert(sort_by_gas(seq![t1]) =~= seq![t1]);
    if t1.gas < t2.gas {
        assert(gas_split(seq![t1], t2.gas, 0) == 0);
        assert(seq![t1].insert(0, t2) =~= seq![t2, t1]);
    } else {
        assert(gas_split(seq![t1], t2.gas, 1) == 1);
        assert(gas_split(seq![t1], t2.gas, 0) == 1);
        assert(seq![t1].insert(1, t2) =~= seq![t1, t2]);
    }
}

/// Builder admission: with two pooled transactions for the next height that
/// touch disjoint accounts, where the first transfers more than its payer
/// holds at the extended block and the second's effects are covered there,
/// assembly takes the second alone; and removing what was admitted from the
/// pool (the signatures differing) leaves the first there, still pending.
pub proof fn lemma_builder_admission(v: Seq<LinkView>, at: int, t1: TxView, t2: TxView, h: int)
    requires
        t1.blockheight == h,
        t2.blockheight == h,
        t1.signature != t2.signature,
        t1.msg is Transfer,
        t1.msg->Transfer_to != t1.payer,
        t1.msg->Transfer_amount > 0,
        chain_balance(v, at, t1.payer) is Some,
        chain_balance(v, at, t1.payer)->Some_0.value() < t1.msg->Transfer_amount,
        forall|k: Seq<u8>|
            #[trigger] involved(t1).contains(k) ==> !involved(t2).contains(k),
        forall|k: Seq<u8>|
            (involved(t1).contains(k) || involved(t2).contains(k)) ==> #[trigger] chain_balance(
                v,
                at,
                k,
            ) is Some,
        tx_step(Some(Map::empty()), t2) is Some,
        admits(
            balances_spec(v, at, involved(t1) + involved(t2)),
            tx_step(Some(Map::empty()), t2)->Some_0,
        ),
    ensures
        ({
            let cands = sort_by_gas(candidates(seq![t1, t2], h));
            greedy(cands, balances_spec(v, at, txs_involved(cands))).0 == seq![t2]
        }),
        remove_admitted_spec(seq![t1, t2], seq![t2]) == seq![t1],
{
    lemma_two_candidates(t1, t2, h);
    let cands = sort_by_gas(candidates(seq![t1, t2], h));
    let e = Seq::<TxView>::empty();
    assert(seq![t1, t2].drop_last() =~= seq![t1]);
    assert(seq![t2, t1].drop_last() =~= seq![t2]);
    assert(seq![t1].drop_last() =~= e);
    assert(seq![t2].drop_last() =~= e);
    assert(seq![t1].last() == t1);
    assert(seq![t2].last() == t2);
    assert(seq![t1, t2].last() == t2);
    assert(seq![t2, t1].last() == t1);
    assert(txs_involved(e) == Seq::<Seq<u8>>::empty());
    assert(Seq::<Seq<u8>>::empty() + involved(t1) =~= involved(t1));
    assert(Seq::<Seq<u8>>::empty() + involved(t2) =~= involved(t2));
    assert(txs_involved(seq![t1]) =~= involved(t1));
    assert(txs_involved(seq![t2]) =~= involved(t2));
    let ks = involved(t1) + involved(t2);
    let bal = balances_spec(v, at, ks);
    assert(balances_spec(v, at, txs_involved(cands)) =~= bal) by {
        if t1.gas < t2.gas {
            assert(txs_involved(cands) == involved(t2) + involved(t1));
            assert forall|k: Seq<u8>| (involved(t2) + involved(t1)).contains(k) <==> ks.contains(k) by {
                lemma_concat_contains(involved(t2), involved(t1), k);
                lemma_concat_contains(involved(t1), involved(t2), k);
            }
        } else {
            assert(txs_involved(cands) == ks);
        }
    }
    let p1 = t1.payer;
    let (to, amount) = match t1.msg {
        MessageView::Transfer { to, amount } => (to, amount),
        _ => (p1, 0),
    };
    let d1 = tx_step(Some(Map::empty()), t1)->Some_0;
    assert(crate::transaction::delta_for(t1, p1) == BalanceDelta::Neg(amount));
    assert(d1 == Map::<Seq<u8>, BalanceDelta>::empty().insert(p1, BalanceDelta::Neg(amount)).insert(
        to,
        BalanceDelta::Pos(amount),
    ));
    assert(involved(t1)[0] == p1);
    lemma_concat_contains(involved(t1), involved(t2), p1);
    assert(bal.contains_key(p1));
    assert(d1.contains_key(p1) && d1[p1] == BalanceDelta::Neg(amount));
    assert(!entry_admits(bal, p1, d1[p1]));
    let d2 = tx_step(Some(Map::empty()), t2)->Some_0;
    assert forall|k: Seq<u8>| #[trigger] d1.contains_key(k) implies !d2.contains_key(k) by {
        lemma_table_keys_involved(t1, k);
        lemma_table_keys_involved(t2, k);
    }
    lemma_greedy_skips_uncovered(t1, t2, bal);
    assert(remove_admitted_spec(seq![t1, t2], e) == seq![t1, t2]);
    assert(first_signature(seq![t1, t2], t2.signature, 1) == Some(1int));
    assert(first_signature(seq![t1, t2], t2.signature, 0) == Some(1int));
    assert(seq![t1, t2].update(1, t2).drop_last() =~= seq![t1]);
    assert(seq![t2].drop_last() =~= e);
}

proof fn lemma_concat_contains(a: Seq<Seq<u8>>, b: Seq<Seq<u8>>, k: Seq<u8>)
    ensures
        (a + b).contains(k) <==> (a.contains(k) || b.contains(k)),
{
    if a.contains(k) {
        let i = choose|i: int| 0 <= i < a.len() && a[i] == k;
        assert((a + b)[i] == k);
    }
    if b.contains(k) {
        let i = choose|i: int| 0 <= i < b.len() && b[i] == k;
        assert((a + b)[a.len() + i] == k);
    }
    if (a + b).contains(k) {
        let i = choose|i: int| 0 <= i < (a + b).len() && (a + b)[i] == k;
        if i < a.len() {
            assert(a[i] == k);
        } else {
            assert(b[i - a.len()] == k);
        }
    }
}

/// The accounts of a transaction's own table are the accounts it touches.
proof fn lemma_table_keys_involved(t: TxView, k: Seq<u8>)
    ensures
        tx_step(Some(Map::empty()), t) matches Some(d) ==> (d.contains_key(k) ==> involved(
            t,
        ).contains(k)),
{
    let d = tx_step(Some(Map::empty()), t)->Some_0;
    if tx_step(Some(Map::empty()), t) is Some {
        if d.contains_key(k) {
            assert(involved(t)[0] == t.payer);
            if let MessageView::Transfer { to, .. } = t.msg {
                assert(involved(t)[1] == to);
            }
        }
    }
}

/// Builder admission, for the block that assembly seals: with a pool of two
/// transactions for the next height as in `lemma_builder_admission`, the
/// balances read at the block being extended, and a nonce that meets the
/// difficulty, the planned block holds the covered transaction alone. Where
/// the chain then takes the block (see `Ledger::try_build_block`), the pool
/// keeps the other one.
pub proof fn lemma_plan_admits_only_covered(
    v: Seq<LinkView>,
    previous_index: u64,
    previous: Seq<u8>,
    t1: TxView,
    t2: TxView,
)
    requires
        previous_index < u64::MAX,
        find_spec(v, 0, previous, previous_index) is Ok,
        ({
            let at = find_spec(v, 0, previous, previous_index)->Ok_0;
            let h = previous_index + 1;
            &&& t1.blockheight == h
            &&& t2.blockheight == h
            &&& t1.signature != t2.signature
            &&& t1.msg is Transfer
            &&& t1.msg->Transfer_to != t1.payer
            &&& t1.msg->Transfer_amount > 0
            &&& chain_balance(v, at, t1.payer) is Some
            &&& chain_balance(v, at, t1.payer)->Some_0.value() < t1.msg->Transfer_amount
            &&& forall|k: Seq<u8>|
                #[trigger] involved(t1).contains(k) ==> !involved(t2).contains(k)
            &&& forall|k: Seq<u8>|
                (involved(t1).contains(k) || involved(t2).contains(k)) ==> #[trigger] chain_balance(
                    v,
                    at,
                    k,
                ) is Some
            &&& tx_step(Some(Map::empty()), t2) is Some
            &&& admits(
                balances_spec(v, at, involved(t1) + involved(t2)),
                tx_step(Some(Map::empty()), t2)->Some_0,
            )
        }),
        first_nonce(
            (previous_index + 1) as u64,
            previous,
            txs_encoding(seq![t2]),
            DIFFICULTY as nat,
            0,
        ) is Some,
    ensures
        build_plan(v, seq![t1, t2], previous_index, previous) is Some,
        build_plan(v, seq![t1, t2], previous_index, previous)->Some_0.transactions == seq![t2],
        remove_admitted_spec(
            seq![t1, t2],
            build_plan(v, seq![t1, t2], previous_index, previous)->Some_0.transactions,
        ) == seq![t1],
{
    let at = find_spec(v, 0, previous, previous_index)->Ok_0;
    let h = previous_index + 1;
    lemma_builder_admission(v, at, t1, t2, h);
    lemma_two_candidates(t1, t2, h);
    let cands = sort_by_gas(candidates(seq![t1, t2], h));
    let ks = txs_involved(cands);
    let e = Seq::<TxView>::empty();
    assert(seq![t1, t2].drop_last() =~= seq![t1]);
    assert(seq![t2, t1].drop_last() =~= seq![t2]);
    assert(seq![t1].drop_last() =~= e);
    assert(seq![t2].drop_last() =~= e);
    assert(seq![t1].last() == t1);
    assert(seq![t2].last() == t2);
    assert(seq![t1, t2].last() == t2);
    assert(seq![t2, t1].last() == t1);
    assert(txs_involved(e) == Seq::<Seq<u8>>::empty());
    assert(Seq::<Seq<u8>>::empty() + involved(t1) =~= involved(t1));
    assert(Seq::<Seq<u8>>::empty() + involved(t2) =~= involved(t2));
    assert(txs_involved(seq![t1]) =~= involved(t1));
    assert(txs_involved(seq![t2]) =~= involved(t2));
    assert(!exists|i: int| 0 <= i < ks.len() && chain_balance(v, at, #[trigger] ks[i]) is None) by {
        assert forall|i: int| 0 <= i < ks.len() implies chain_balance(v, at, #[trigger] ks[i]) is Some by {
            assert(ks.contains(ks[i]));
            if t1.gas < t2.gas {
                lemma_concat_contains(involved(t2), involved(t1), ks[i]);
            } else {
                lemma_concat_contains(involved(t1), involved(t2), ks[i]);
            }
        }
    }
    assert(build_plan(v, seq![t1, t2], previous_index, previous) == plan_at(
        v,
        at,
        seq![t1, t2],
        previous_index,
        previous,
    ));
}

} // verus!

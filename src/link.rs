//! The fork tree: every block that extends a known block, kept in an arena
//! where each node names its parent by position.
use crate::balance::{BalanceDelta, BalanceTable};
use crate::block::{Block, BlockView};
use crate::blockhash::Blockhash;
use crate::err::GulfStreamError;
use crate::keys::PublicKey;
use crate::transaction::{txs_table, views, MessageView, Transaction, TxView};
use vstd::prelude::*;

verus! {

/// One node of the fork tree: a block, its parent and its children.
#[derive(Debug)]
pub struct Link {
    pub block_parent: Option<usize>,
    pub block: Block,
    pub next_blocks: Vec<usize>,
}

/// What a node is: its parent, its block and its children.
pub struct LinkView {
    pub parent: Option<usize>,
    pub block: BlockView,
    pub children: Seq<usize>,
}

impl View for Link {
    type V = LinkView;

    open spec fn view(&self) -> LinkView {
        LinkView { parent: self.block_parent, block: self.block@, children: self.next_blocks@ }
    }
}

/// Node `i` has an earlier parent, an index one above the parent's, and
/// names the parent's hash.
pub open spec fn link_ok(v: Seq<LinkView>, i: int) -> bool {
    &&& v[i].parent matches Some(p)
    &&& p < i
    &&& v[i].block.index == v[p as int].block.index + 1
    &&& v[i].block.previous_blockhash == v[p as int].block.blockhash
}

/// A tree whose node 0 is the root and whose other nodes are linked to
/// earlier ones.
pub open spec fn tree_wf(v: Seq<LinkView>) -> bool {
    &&& v.len() >= 1
    &&& v[0].parent is None
    &&& forall|i: int| 1 <= i < v.len() ==> #[trigger] link_ok(v, i)
}

/// The result of inserting `b` under node `at`.
pub open spec fn insert_spec(v: Seq<LinkView>, at: int, b: BlockView) -> Result<
    Seq<LinkView>,
    GulfStreamError,
> {
    if b.index != v[at].block.index + 1 {
        Err(GulfStreamError::WrongIndex)
    } else if b.previous_blockhash != v[at].block.blockhash {
        Err(GulfStreamError::WrongParentBlockhash)
    } else {
        Ok(
            v.update(
                at,
                LinkView { children: v[at].children.push(v.len() as usize), ..v[at] },
            ).push(LinkView { parent: Some(at as usize), block: b, children: Seq::empty() }),
        )
    }
}

/// Whether node `j` lies in the subtree of node `a` (itself included).
pub open spec fn descends(v: Seq<LinkView>, j: int, a: int) -> bool
    decreases j,
{
    if j == a {
        true
    } else if j < a || j <= 0 || j >= v.len() {
        false
    } else {
        match v[j].parent {
            Some(p) => p < j && descends(v, p as int, a),
            None => false,
        }
    }
}

/// Whether node `j` holds the block with this index and hash.
pub open spec fn holds(v: Seq<LinkView>, j: int, hash: Seq<u8>, index: u64) -> bool {
    v[j].block.index == index && v[j].block.blockhash == hash
}

/// The first node, from `j` on, that lies in the subtree of `from` and
/// holds the block with this hash and index.
pub open spec fn first_match(v: Seq<LinkView>, from: int, hash: Seq<u8>, index: u64, j: int) -> Option<
    int,
>
    decreases v.len() - j,
{
    if j < 0 || j >= v.len() {
        None
    } else if descends(v, j, from) && holds(v, j, hash, index) {
        Some(j)
    } else {
        first_match(v, from, hash, index, j + 1)
    }
}

/// The result of searching the subtree of `from` for a block: the earliest
/// node, in order of insertion, that holds it. A depth-first walk over the
/// children would find another node only where the same block was inserted
/// more than once, under different parents.
pub open spec fn find_spec(v: Seq<LinkView>, from: int, hash: Seq<u8>, index: u64) -> Result<
    int,
    GulfStreamError,
> {
    if index < v[from].block.index {
        Err(GulfStreamError::WrongIndex)
    } else {
        match first_match(v, from, hash, index, from) {
            Some(j) => Ok(j),
            None => Err(GulfStreamError::BlockNotFound),
        }
    }
}

/// A node found by the search lies in range.
pub proof fn lemma_first_match_in_range(v: Seq<LinkView>, from: int, hash: Seq<u8>, index: u64, j: int)
    ensures
        first_match(v, from, hash, index, j) matches Some(k) ==> j <= k < v.len() && descends(
            v,
            k,
            from,
        ) && holds(v, k, hash, index),
    decreases v.len() - j,
{
    if 0 <= j < v.len() && !(descends(v, j, from) && holds(v, j, hash, index)) {
        lemma_first_match_in_range(v, from, hash, index, j + 1);
    }
}

/// The effect of one block on account `pk`: its entry in the block's table,
/// `Pos(0)` where it has none; `None` where the table overflows.
pub open spec fn block_delta(b: BlockView, pk: Seq<u8>) -> Option<BalanceDelta> {
    match txs_table(b.transactions) {
        None => None,
        Some(m) => Some(
            if m.contains_key(pk) {
                m[pk]
            } else {
                BalanceDelta::Pos(0)
            },
        ),
    }
}

/// The balance of `pk` at node `i`: the node's own delta plus the balance
/// at its parent; `None` where a sum leaves `u64`.
pub open spec fn chain_balance(v: Seq<LinkView>, i: int, pk: Seq<u8>) -> Option<BalanceDelta>
    decreases i,
{
    if i < 0 || i >= v.len() {
        None
    } else {
        match block_delta(v[i].block, pk) {
            None => None,
            Some(c) => match v[i].parent {
                None => Some(c),
                Some(p) => if p < i {
                    match chain_balance(v, p as int, pk) {
                        None => None,
                        Some(l) => if c.can_add(l) {
                            Some(c.spec_add(l))
                        } else {
                            None
                        },
                    }
                } else {
                    None
                },
            },
        }
    }
}

/// The fork tree, rooted at node 0.
pub struct ForkTree {
    links: Vec<Link>,
}

impl View for ForkTree {
    type V = Seq<LinkView>;

    closed spec fn view(&self) -> Seq<LinkView> {
        self.links@.map_values(|l: Link| l@)
    }
}

impl ForkTree {
    pub open spec fn wf(&self) -> bool {
        tree_wf(self@)
    }

    /// A tree that holds `root` alone.
    pub fn new(root: Block) -> (r: ForkTree)
        ensures
            r.wf(),
            r@ == seq![LinkView { parent: None, block: root@, children: Seq::empty() }],
    {
        let mut links: Vec<Link> = Vec::new();
        links.push(Link { block_parent: None, block: root, next_blocks: Vec::new() });
        let r = ForkTree { links };
        assert(r@ =~= seq![LinkView { parent: None, block: r.links@[0].block@, children: Seq::empty() }]);
        r
    }

    /// The number of nodes.
    pub fn len(&self) -> (r: usize)
        ensures
            r == self@.len(),
    {
        self.links.len()
    }

    /// Node `i`.
    pub fn link(&self, i: usize) -> (r: &Link)
        requires
            i < self@.len(),
        ensures
            r@ == self@[i as int],
    {
        &self.links[i]
    }

    /// Adds `block` as a child of node `at`, provided that its index is one
    /// above that node's and that it names that node's hash; the new node
    /// comes last.
    pub fn try_insert(&mut self, at: usize, block: &Block) -> (r: Result<usize, GulfStreamError>)
        requires
            old(self).wf(),
            at < old(self)@.len(),
        ensures
            final(self).wf(),
            match insert_spec(old(self)@, at as int, block@) {
                Ok(v) => r == Ok::<usize, GulfStreamError>(old(self)@.len() as usize)
                    && final(self)@ == v,
                Err(e) => r == Err::<usize, GulfStreamError>(e) && final(self)@ == old(self)@,
            },
            r matches Ok(n) ==> n as int == old(self)@.len() && final(self)@.len() == n + 1,
    {
        let parent_index = self.links[at].block.index;
        if parent_index == u64::MAX || block.index != parent_index + 1 {
            return Err(GulfStreamError::WrongIndex);
        }
        if block.previous_blockhash != self.links[at].block.blockhash {
            return Err(GulfStreamError::WrongParentBlockhash);
        }
        let n = self.links.len();
        let ghost v0 = self@;
        let mut parent = self.links.remove(at);
        parent.next_blocks.push(n);
        self.links.insert(at, parent);
        self.links.push(Link { block_parent: Some(at), block: block.clone(), next_blocks: Vec::new() });
        proof {
            let v = insert_spec(v0, at as int, block@)->Ok_0;
            assert(self@ =~= v);
            assert forall|i: int| 1 <= i < self@.len() implies #[trigger] link_ok(self@, i) by {
                if i < n {
                    assert(link_ok(v0, i));
                    assert(v0[i].parent is Some);
                }
            }
        }
        Ok(n)
    }

    /// Whether node `j` lies in the subtree of node `a`.
    pub fn is_descendant(&self, j: usize, a: usize) -> (r: bool)
        requires
            self.wf(),
            j < self@.len(),
        ensures
            r == descends(self@, j as int, a as int),
    {
        let mut cur = j;
        while cur > a
            invariant
                self.wf(),
                cur < self@.len(),
                descends(self@, j as int, a as int) == descends(self@, cur as int, a as int),
            decreases cur,
        {
            assert(link_ok(self@, cur as int));
            let p = self.links[cur].block_parent.unwrap();
            cur = p;
        }
        cur == a
    }

    /// Searches the subtree of node `from` for the block with this hash and
    /// index: `WrongIndex` if the index lies below that node's, the earliest
    /// node in order of insertion that holds the block, else `BlockNotFound`.
    /// Where one block sits under several parents this is the first inserted
    /// copy, which a depth-first walk over the children may not reach first.
    pub fn try_find_block(&self, from: usize, blockhash: &Blockhash, index: u64) -> (r: Result<
        usize,
        GulfStreamError,
    >)
        requires
            self.wf(),
            from < self@.len(),
        ensures
            match find_spec(self@, from as int, blockhash@, index) {
                Ok(j) => r is Ok && r->Ok_0 as int == j,
                Err(e) => r == Err::<usize, GulfStreamError>(e),
            },
            r matches Ok(j) ==> j < self@.len() && holds(self@, j as int, blockhash@, index),
    {
        if index < self.links[from].block.index {
            return Err(GulfStreamError::WrongIndex);
        }
        let mut j = from;
        assert(self@[from as int].block.index == self.links@[from as int].block.index);
        while j < self.links.len()
            invariant
                self.wf(),
                index >= self@[from as int].block.index,
                from <= j <= self@.len(),
                first_match(self@, from as int, blockhash@, index, from as int) == first_match(
                    self@,
                    from as int,
                    blockhash@,
                    index,
                    j as int,
                ),
            decreases self@.len() - j,
        {
            if self.links[j].block.index == index && self.links[j].block.blockhash == *blockhash
                && self.is_descendant(j, from) {
                return Ok(j);
            }
            j = j + 1;
        }
        Err(GulfStreamError::BlockNotFound)
    }

    /// The effect of one block on `pk`.
    fn block_delta_of(block: &Block, pk: &PublicKey) -> (r: Option<BalanceDelta>)
        ensures
            r == block_delta(block@, pk@),
    {
        match block.get_balance_deltas() {
            None => None,
            Some(t) => match t.get(pk) {
                Some(d) => Some(d),
                None => Some(BalanceDelta::Pos(0)),
            },
        }
    }

    /// The balance of `pk` at node `at`, summed from the root along the
    /// chain; `None` where a sum leaves `u64`.
    pub fn try_get_balance(&self, at: usize, pk: &PublicKey) -> (r: Option<BalanceDelta>)
        requires
            self.wf(),
            at < self@.len(),
        ensures
            r == chain_balance(self@, at as int, pk@),
        decreases at,
    {
        let current = match ForkTree::block_delta_of(&self.links[at].block, pk) {
            None => return None,
            Some(c) => c,
        };
        match self.links[at].block_parent {
            None => Some(current),
            Some(p) => {
                assert(at >= 1);
                assert(link_ok(self@, at as int));
                match self.try_get_balance(p, pk) {
                    None => None,
                    Some(last) => current.checked_add(last),
                }
            },
        }
    }

    /// The balance of `pk` at node `at`; the sums along the chain must stay
    /// within `u64`.
    pub fn get_balance(&self, at: usize, pk: &PublicKey) -> (r: BalanceDelta)
        requires
            self.wf(),
            at < self@.len(),
            chain_balance(self@, at as int, pk@) is Some,
        ensures
            Some(r) == chain_balance(self@, at as int, pk@),
    {
        match self.try_get_balance(at, pk) {
            Some(d) => d,
            None => BalanceDelta::Pos(0),
        }
    }

    /// The transactions on the chain from the root to node `at`, oldest first.
    pub fn get_transaction_history(&self, at: usize) -> (r: Vec<Transaction>)
        requires
            self.wf(),
            at < self@.len(),
        ensures
            views(r@) == chain_txs(self@, at as int),
        decreases at,
    {
        proof {
            assert(self@[at as int].parent == self.links@[at as int].block_parent);
            if at > 0 {
                assert(link_ok(self@, at as int));
            }
        }
        let mut r = match self.links[at].block_parent {
            Some(p) => self.get_transaction_history(p),
            None => Vec::new(),
        };
        assert(chain_txs(self@, at as int) == views(r@) + self@[at as int].block.transactions);
        let txs = &self.links[at].block.transactions;
        let ghost start = r@;
        let mut i: usize = 0;
        while i < txs.len()
            invariant
                i <= txs@.len(),
                views(r@) == views(start) + views(txs@.subrange(0, i as int)),
            decreases txs@.len() - i,
        {
            let ghost prev = r@;
            let c = txs[i].clone();
            r.push(c);
            proof {
                assert(views(r@) =~= views(prev).push(txs@[i as int]@));
                assert(views(txs@.subrange(0, i + 1)) =~= views(txs@.subrange(0, i as int)).push(
                    txs@[i as int]@,
                ));
            }
            i = i + 1;
        }
        proof {
            assert(txs@.subrange(0, txs@.len() as int) =~= txs@);
            assert(self@[at as int].block.transactions == views(txs@));
            assert(self@[at as int].parent == self.links@[at as int].block_parent);
            assert(views(txs@.subrange(0, txs@.len() as int)) == views(txs@));
            assert(views(r@) == views(start) + views(txs@));
        }
        r
    }

    /// The balances at node `at` of every account in `pks`; `None` where one
    /// of them leaves `u64`.
    pub fn get_balances(&self, at: usize, pks: &Vec<PublicKey>) -> (r: Option<BalanceTable>)
        requires
            self.wf(),
            at < self@.len(),
        ensures
            match r {
                Some(t) => t.wf() && t@ == balances_spec(self@, at as int, pks@.map_values(
                    |k: PublicKey| k@,
                )) && forall|i: int|
                    0 <= i < pks@.len() ==> chain_balance(self@, at as int, #[trigger] pks@[i]@)
                        is Some,
                None => exists|i: int|
                    0 <= i < pks@.len() && chain_balance(self@, at as int, #[trigger] pks@[i]@)
                        is None,
            },
    {
        let mut t = BalanceTable::new();
        let mut i: usize = 0;
        while i < pks.len()
            invariant
                self.wf(),
                at < self@.len(),
                i <= pks@.len(),
                t.wf(),
                t@ == balances_spec(self@, at as int, pks@.subrange(0, i as int).map_values(
                    |k: PublicKey| k@,
                )),
                forall|j: int|
                    0 <= j < i ==> chain_balance(self@, at as int, #[trigger] pks@[j]@) is Some,
            decreases pks@.len() - i,
        {
            match self.try_get_balance(at, &pks[i]) {
                None => return None,
                Some(d) => {
                    t.insert(&pks[i], d);
                    proof {
                        let ks = pks@.subrange(0, i + 1).map_values(|k: PublicKey| k@);
                        let ks0 = pks@.subrange(0, i as int).map_values(|k: PublicKey| k@);
                        assert(ks =~= ks0.push(pks@[i as int]@));
                        assert forall|k: Seq<u8>| ks.contains(k) <==> (ks0.contains(k) || k == pks@[i as int]@) by {
                            if ks.contains(k) {
                                let x = choose|x: int| 0 <= x < ks.len() && ks[x] == k;
                                if x < i {
                                    assert(ks0[x] == k);
                                }
                            }
                            if ks0.contains(k) {
                                let x = choose|x: int| 0 <= x < ks0.len() && ks0[x] == k;
                                assert(ks[x] == k);
                            }
                            if k == pks@[i as int]@ {
                                assert(ks[i as int] == k);
                            }
                        }
                        assert(t@ =~= balances_spec(self@, at as int, ks));
                    }
                },
            }
            i = i + 1;
        }
        assert(pks@.subrange(0, pks@.len() as int) =~= pks@);
        Some(t)
    }
}

/// Inserting under a node a block whose index is one above the node's and
/// which names the node's hash succeeds and keeps the tree well formed;
/// inserting the same block again under the same node succeeds as well and
/// adds a second child that holds the same block.
pub proof fn lemma_insert_twice(v: Seq<LinkView>, at: int, b: BlockView)
    requires
        tree_wf(v),
        0 <= at < v.len(),
        v.len() + 2 <= usize::MAX,
        b.index == v[at].block.index + 1,
        b.previous_blockhash == v[at].block.blockhash,
    ensures
        insert_spec(v, at, b) is Ok,
        tree_wf(insert_spec(v, at, b)->Ok_0),
        insert_spec(insert_spec(v, at, b)->Ok_0, at, b) is Ok,
        ({
            let v2 = insert_spec(insert_spec(v, at, b)->Ok_0, at, b)->Ok_0;
            &&& v2.len() == v.len() + 2
            &&& v2[v.len() as int].block == b
            &&& v2[v.len() as int + 1].block == b
            &&& v2[v.len() as int].parent == Some(at as usize)
            &&& v2[v.len() as int + 1].parent == Some(at as usize)
            &&& v2[at].children == v[at].children.push(v.len() as usize).push((v.len() + 1) as usize)
        }),
{
    let v1 = insert_spec(v, at, b)->Ok_0;
    assert forall|i: int| 1 <= i < v1.len() implies #[trigger] link_ok(v1, i) by {
        if i < v.len() {
            assert(link_ok(v, i));
            assert(v[i].parent is Some);
            let p = v[i].parent->Some_0;
            assert(v1[i].block == v[i].block);
            assert(v1[p as int].block == v[p as int].block);
        } else {
            assert(v1[at].block == v[at].block);
        }
    }
}

/// Inserting keeps every earlier node's block and parent.
pub proof fn lemma_insert_keeps_blocks(v: Seq<LinkView>, at: int, b: BlockView)
    requires
        0 <= at < v.len(),
        insert_spec(v, at, b) is Ok,
    ensures
        ({
            let w = insert_spec(v, at, b)->Ok_0;
            &&& w.len() == v.len() + 1
            &&& w[v.len() as int].block == b
            &&& forall|i: int|
                0 <= i < v.len() ==> #[trigger] w[i].block == v[i].block && w[i].parent
                    == v[i].parent
        }),
{
}

/// On a chain of a root block without transactions, a block that mints `a`
/// for account `m`, and a block in which `m` transfers `x` to account `b`,
/// the balance of `m` is `a - x` and that of `b` is `x`.
pub proof fn lemma_mint_then_transfer(
    v: Seq<LinkView>,
    m: Seq<u8>,
    b: Seq<u8>,
    a: u64,
    x: u64,
    mint: TxView,
    transfer: TxView,
)
    requires
        v.len() == 3,
        v[0].block.transactions.len() == 0,
        v[0].parent is None,
        v[1].parent == Some(0usize),
        v[2].parent == Some(1usize),
        m != b,
        x <= a,
        mint.payer == m,
        mint.msg == (MessageView::Mint { amount: a }),
        transfer.payer == m,
        transfer.msg == (MessageView::Transfer { to: b, amount: x }),
        v[1].block.transactions == seq![mint],
        v[2].block.transactions == seq![transfer],
    ensures
        chain_balance(v, 2, m) == Some(BalanceDelta::Pos((a - x) as u64)),
        chain_balance(v, 2, b) == Some(BalanceDelta::Pos(x)),
{
    let e = Map::<Seq<u8>, BalanceDelta>::empty();
    assert(txs_table(v[0].block.transactions) == Some(e));
    assert(seq![mint].drop_last() =~= Seq::<TxView>::empty());
    assert(seq![transfer].drop_last() =~= Seq::<TxView>::empty());
    assert(txs_table(Seq::<TxView>::empty()) == Some(e));
    assert(seq![mint].last() == mint);
    assert(seq![transfer].last() == transfer);
    assert(crate::transaction::delta_for(mint, m) == BalanceDelta::Pos(a));
    assert(crate::transaction::delta_for(transfer, m) == BalanceDelta::Neg(x));
    assert(crate::transaction::delta_for(transfer, b) == BalanceDelta::Pos(x));
    assert(txs_table(seq![mint]) == crate::transaction::tx_step(Some(e), mint));
    assert(txs_table(seq![mint]) == Some(e.insert(m, BalanceDelta::Pos(a))));
    assert(txs_table(seq![transfer]) == crate::transaction::tx_step(Some(e), transfer));
    let t2 = e.insert(m, BalanceDelta::Neg(x)).insert(b, BalanceDelta::Pos(x));
    assert(txs_table(seq![transfer]) == Some(t2));
    assert(block_delta(v[0].block, m) == Some(BalanceDelta::Pos(0)));
    assert(block_delta(v[0].block, b) == Some(BalanceDelta::Pos(0)));
    assert(block_delta(v[1].block, m) == Some(BalanceDelta::Pos(a)));
    assert(block_delta(v[1].block, b) == Some(BalanceDelta::Pos(0)));
    assert(block_delta(v[2].block, m) == Some(BalanceDelta::Neg(x)));
    assert(block_delta(v[2].block, b) == Some(BalanceDelta::Pos(x)));
    assert(chain_balance(v, 0, m) == Some(BalanceDelta::Pos(0)));
    assert(chain_balance(v, 0, b) == Some(BalanceDelta::Pos(0)));
    assert(chain_balance(v, 1, m) == Some(BalanceDelta::Pos(a)));
    assert(chain_balance(v, 1, b) == Some(BalanceDelta::Pos(0)));
}

/// The transactions on the chain from the root to node `i`, oldest first.
pub open spec fn chain_txs(v: Seq<LinkView>, i: int) -> Seq<TxView>
    decreases i,
{
    if i < 0 || i >= v.len() {
        Seq::empty()
    } else {
        match v[i].parent {
            Some(p) => if p < i {
                chain_txs(v, p as int) + v[i].block.transactions
            } else {
                v[i].block.transactions
            },
            None => v[i].block.transactions,
        }
    }
}

/// The table of balances at node `at` of the accounts `ks`.
pub open spec fn balances_spec(v: Seq<LinkView>, at: int, ks: Seq<Seq<u8>>) -> Map<
    Seq<u8>,
    BalanceDelta,
> {
    Map::new(|k: Seq<u8>| ks.contains(k), |k: Seq<u8>| chain_balance(v, at, k).unwrap())
}

} // verus!

//! The ledger's fork tree together with the recently extended fork tips and
//! the highest block seen.
use crate::block::{genesis_view, Block, BlockView};
use crate::err::GulfStreamError;
use crate::link::{find_spec, insert_spec, tree_wf, ForkTree, Link, LinkView};
use vstd::prelude::*;

verus! {

/// How many recently extended tips are tracked.
pub const LASTEST_LINK_LENGTH: usize = 10;

/// Whether node `t` takes `b` as a child.
pub open spec fn accepts(v: Seq<LinkView>, t: int, b: BlockView) -> bool {
    b.index == v[t].block.index + 1 && b.previous_blockhash == v[t].block.blockhash
}

/// The first tip, from position `k` on, that takes `b`.
pub open spec fn first_tip(v: Seq<LinkView>, tips: Seq<usize>, b: BlockView, k: int) -> Option<
    int,
>
    decreases tips.len() - k,
{
    if k < 0 || k >= tips.len() {
        None
    } else if accepts(v, tips[k] as int, b) {
        Some(tips[k] as int)
    } else {
        first_tip(v, tips, b, k + 1)
    }
}

/// Where `b` goes: under the first tracked tip that takes it, else under the
/// earliest node of the tree that holds its parent.
pub open spec fn chosen_parent(v: Seq<LinkView>, tips: Seq<usize>, b: BlockView) -> Option<int> {
    match first_tip(v, tips, b, 0) {
        Some(t) => Some(t),
        None => if b.index >= 1 {
            match find_spec(v, 0, b.previous_blockhash, (b.index - 1) as u64) {
                Ok(p) => Some(p),
                Err(_) => None,
            }
        } else {
            None
        },
    }
}

proof fn lemma_first_tip_in_range(v: Seq<LinkView>, tips: Seq<usize>, b: BlockView, k: int)
    requires
        forall|i: int| 0 <= i < tips.len() ==> tips[i] < v.len(),
    ensures
        first_tip(v, tips, b, k) matches Some(t) ==> 0 <= t < v.len(),
    decreases tips.len() - k,
{
    if 0 <= k < tips.len() && !accepts(v, tips[k] as int, b) {
        lemma_first_tip_in_range(v, tips, b, k + 1);
    }
}

proof fn lemma_chosen_in_range(v: Seq<LinkView>, tips: Seq<usize>, b: BlockView)
    requires
        v.len() >= 1,
        forall|i: int| 0 <= i < tips.len() ==> tips[i] < v.len(),
    ensures
        chosen_parent(v, tips, b) matches Some(p) ==> 0 <= p < v.len(),
{
    lemma_first_tip_in_range(v, tips, b, 0);
    if b.index >= 1 {
        crate::link::lemma_first_match_in_range(v, 0, b.previous_blockhash, (b.index - 1) as u64, 0);
    }
}

/// The tracked tips after `n` was extended: `n` first, the oldest dropped
/// beyond the bound.
pub open spec fn promote(tips: Seq<usize>, n: usize) -> Seq<usize> {
    if tips.len() >= LASTEST_LINK_LENGTH {
        seq![n] + tips.drop_last()
    } else {
        seq![n] + tips
    }
}

/// The fork tree, its recently extended tips (most recent first) and the
/// highest node seen.
pub struct Blockchain {
    tree: ForkTree,
    latest_links: Vec<usize>,
    heighest_link: usize,
}

impl Blockchain {
    pub closed spec fn tree_view(&self) -> Seq<LinkView> {
        self.tree@
    }

    pub closed spec fn tips(&self) -> Seq<usize> {
        self.latest_links@
    }

    pub closed spec fn highest(&self) -> int {
        self.heighest_link as int
    }

    pub open spec fn wf(&self) -> bool {
        &&& tree_wf(self.tree_view())
        &&& 1 <= self.tips().len() <= LASTEST_LINK_LENGTH
        &&& forall|i: int| 0 <= i < self.tips().len() ==> self.tips()[i] < self.tree_view().len()
        &&& 0 <= self.highest() < self.tree_view().len()
    }

    /// A chain that holds the genesis block alone.
    pub fn new() -> (r: Blockchain)
        ensures
            r.wf(),
            r.tree_view().len() == 1,
            r.tree_view() == seq![
                LinkView { parent: None, block: genesis_view(), children: Seq::empty() },
            ],
            r.tips() == seq![0usize],
            r.highest() == 0,
    {
        let tree = ForkTree::new(Block::genesis());
        let mut latest_links: Vec<usize> = Vec::new();
        latest_links.push(0);
        let r = Blockchain { tree, latest_links, heighest_link: 0 };
        assert(r.tips() =~= seq![0usize]);
        r
    }

    /// The fork tree.
    pub fn tree(&self) -> (r: &ForkTree)
        ensures
            r@ == self.tree_view(),
            r.wf() == tree_wf(self.tree_view()),
    {
        &self.tree
    }

    /// The node of the highest block seen.
    pub fn get_latest(&self) -> (r: &Link)
        requires
            self.wf(),
        ensures
            r@ == self.tree_view()[self.highest()],
    {
        self.tree.link(self.heighest_link)
    }

    /// The position of the highest block seen.
    pub fn get_latest_index(&self) -> (r: usize)
        ensures
            r == self.highest(),
    {
        self.heighest_link
    }

    /// The shape check on blocks, which every block passes.
    fn is_valid(&self, _block: &Block) -> (r: bool)
        ensures
            r,
    {
        true
    }

    fn update_latest(&mut self, n: usize)
        requires
            old(self).latest_links@.len() <= LASTEST_LINK_LENGTH,
        ensures
            final(self).latest_links@ == promote(old(self).latest_links@, n),
            final(self).tree == old(self).tree,
            final(self).heighest_link == old(self).heighest_link,
    {
        if self.latest_links.len() >= LASTEST_LINK_LENGTH {
            self.latest_links.pop();
        }
        self.latest_links.insert(0, n);
        proof {
            assert(self.latest_links@ =~= promote(old(self).latest_links@, n));
        }
    }

    /// Inserts `block` under the first tracked tip that takes it.
    fn insert_at_tips(&mut self, block: &Block) -> (r: Option<usize>)
        requires
            old(self).wf(),
        ensures
            final(self).wf(),
            final(self).tips() == old(self).tips(),
            final(self).highest() == old(self).highest(),
            r matches Some(n) ==> n as int == old(self).tree_view().len() && final(self).tree_view().len() == n + 1,
            match first_tip(old(self).tree_view(), old(self).tips(), block@, 0) {
                None => r is None && final(self).tree_view() == old(self).tree_view(),
                Some(t) => r == Some(old(self).tree_view().len() as usize) && insert_spec(
                    old(self).tree_view(),
                    t,
                    block@,
                ) is Ok && final(self).tree_view() == insert_spec(
                    old(self).tree_view(),
                    t,
                    block@,
                )->Ok_0,
            },
    {
        let ghost v = self.tree@;
        let ghost tips = self.tips();
        let mut k: usize = 0;
        let mut found: Option<usize> = None;
        while found.is_none() && k < self.latest_links.len()
            invariant
                self.wf(),
                self.tips() == tips,
                tips == old(self).tips(),
                v == old(self).tree_view(),
                self.highest() == old(self).highest(),
                k <= tips.len(),
                found is None ==> self.tree@ == v && first_tip(v, tips, block@, 0) == first_tip(
                    v,
                    tips,
                    block@,
                    k as int,
                ),
                found matches Some(n) ==> n as int == v.len() && self.tree@.len() == n + 1,
                found matches Some(n) ==> ({
                    let t = first_tip(v, tips, block@, 0);
                    &&& t is Some
                    &&& n == v.len()
                    &&& insert_spec(v, t->Some_0, block@) is Ok
                    &&& self.tree@ == insert_spec(v, t->Some_0, block@)->Ok_0
                }),
            decreases tips.len() - k + (if found is None { 1int } else { 0int }),
        {
            let t = self.latest_links[k];
            assert(t == tips[k as int]);
            assert(first_tip(v, tips, block@, k as int) == if accepts(v, t as int, block@) {
                Some(t as int)
            } else {
                first_tip(v, tips, block@, k + 1)
            });
            match self.tree.try_insert(t, block) {
                Ok(n) => {
                    assert(accepts(v, t as int, block@));
                    assert(first_tip(v, tips, block@, 0) == Some(t as int));
                    found = Some(n);
                },
                Err(_) => {
                    assert(!accepts(v, t as int, block@));
                },
            }
            k = k + 1;
        }
        found
    }

    /// Inserts `block` under the earliest node of the tree that holds its parent.
    fn insert_by_search(&mut self, block: &Block) -> (r: Option<usize>)
        requires
            old(self).wf(),
        ensures
            final(self).wf(),
            final(self).tips() == old(self).tips(),
            final(self).highest() == old(self).highest(),
            r matches Some(n) ==> n as int == old(self).tree_view().len() && final(self).tree_view().len() == n + 1,
            ({
                let v = old(self).tree_view();
                let found = if block.index >= 1 {
                    match find_spec(v, 0, block@.previous_blockhash, (block.index - 1) as u64) {
                        Ok(p) => Some(p),
                        Err(_) => None,
                    }
                } else {
                    None::<int>
                };
                match found {
                    None => r is None && final(self).tree_view() == v,
                    Some(p) => r == Some(v.len() as usize) && insert_spec(v, p, block@) is Ok
                        && final(self).tree_view() == insert_spec(v, p, block@)->Ok_0,
                }
            }),
    {
        if block.index == 0 {
            return None;
        }
        let ghost v = self.tree@;
        match self.tree.try_find_block(0, &block.previous_blockhash, block.index - 1) {
            Ok(p) => {
                assert(find_spec(v, 0, block@.previous_blockhash, (block.index - 1) as u64)
                    == Ok::<int, GulfStreamError>(p as int));
                assert(insert_spec(v, p as int, block@) is Ok);
                match self.tree.try_insert(p, block) {
                    Ok(n) => Some(n),
                    Err(_) => None,
                }
            },
            Err(_) => None,
        }
    }

    /// Inserts `block` under the first tracked tip that takes it, or else
    /// under the earliest node of the tree that holds its parent; then tracks
    /// the new node as the most recent tip and, if its index is at least the
    /// highest one's, as the highest. Fails with `DidNotFindPreviousBlock`,
    /// changing nothing, where no node takes the block.
    #[verifier::rlimit(40)]
    pub fn try_insert(&mut self, block: &Block) -> (r: Result<(), GulfStreamError>)
        requires
            old(self).wf(),
        ensures
            final(self).wf(),
            match chosen_parent(old(self).tree_view(), old(self).tips(), block@) {
                None => r == Err::<(), GulfStreamError>(GulfStreamError::DidNotFindPreviousBlock)
                    && final(self).tree_view() == old(self).tree_view() && final(self).tips()
                    == old(self).tips() && final(self).highest() == old(self).highest(),
                Some(p) => {
                    let n = old(self).tree_view().len();
                    &&& r is Ok
                    &&& insert_spec(old(self).tree_view(), p, block@) is Ok
                    &&& final(self).tree_view() == insert_spec(old(self).tree_view(), p, block@)->Ok_0
                    &&& final(self).tips() == promote(old(self).tips(), n as usize)
                    &&& final(self).tips()[0] as int == n
                    &&& final(self).highest() == if old(self).tree_view()[old(self).highest()].block.index
                        <= block.index {
                        n as int
                    } else {
                        old(self).highest()
                    }
                },
            },
    {
        if !self.is_valid(block) {
            return Err(GulfStreamError::BlockIsNotValid);
        }
        let n = match self.insert_at_tips(block) {
            Some(n) => n,
            None => match self.insert_by_search(block) {
                Some(n) => n,
                None => return Err(GulfStreamError::DidNotFindPreviousBlock),
            },
        };
        proof {
            let v = old(self).tree_view();
            let p = chosen_parent(v, old(self).tips(), block@)->Some_0;
            lemma_chosen_in_range(v, old(self).tips(), block@);
            crate::link::lemma_insert_keeps_blocks(v, p, block@);
            assert(self.tree@[self.heighest_link as int].block == v[self.heighest_link as int].block);
            assert(self.tree@[n as int].block == block@);
        }
        self.update_latest(n);
        if self.tree.link(self.heighest_link).block.index <= self.tree.link(n).block.index {
            self.heighest_link = n;
        }
        Ok(())
    }
}

impl Default for Blockchain {
    fn default() -> (r: Self)
        ensures
            r.wf(),
            r.tree_view() == seq![
                LinkView { parent: None, block: genesis_view(), children: Seq::empty() },
            ],
            r.tips() == seq![0usize],
            r.highest() == 0,
    {
        Blockchain::new()
    }
}

} // verus!

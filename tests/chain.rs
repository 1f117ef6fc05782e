use ed25519_dalek::Keypair;
use gulf_stream::balance::BalanceDelta;
use gulf_stream::block::{Block, TransactionState};
use gulf_stream::blockchain::Blockchain;
use gulf_stream::blockhash::Blockhash;
use gulf_stream::err::GulfStreamError;
use gulf_stream::keys::{PublicKey, Signature};
use gulf_stream::ledger::Ledger;
use gulf_stream::link::ForkTree;
use gulf_stream::transaction::{Transaction, TransactionMessage};
use rand::rngs::OsRng;
use sha2::{Digest, Sha256};

fn random_key() -> PublicKey {
    let mut csprng = OsRng {};
    let keypair: Keypair = Keypair::generate(&mut csprng);
    PublicKey::from_bytes(keypair.public.as_bytes()).unwrap()
}

fn tx(blockheight: u64, gas: u64, msg: TransactionMessage, payer: &PublicKey) -> Transaction {
    Transaction { blockheight, msg, payer: payer.clone(), signature: Default::default(), gas }
}

#[test]
fn casual() {
    let pk1 = random_key();
    let pk2 = random_key();

    let mut link = ForkTree::new(Block::default());
    let block1 = Block::create_block(
        1,
        &link.link(0).block.blockhash,
        vec![
            tx(1, 0, TransactionMessage::Mint { amount: 12 }, &pk1),
            tx(1, 0, TransactionMessage::Mint { amount: 57 }, &pk2),
        ],
        0,
    );

    let block2 = Block::create_block(
        2,
        &block1.blockhash,
        vec![tx(2, 0, TransactionMessage::Transfer { to: pk2.clone(), amount: 5 }, &pk1)],
        0,
    );

    link.try_insert(0, &block1).unwrap();
    let first_child = link.link(0).next_blocks[0];
    link.try_insert(first_child, &block2).unwrap();

    let found = link.try_find_block(0, &block2.blockhash, block2.index).unwrap();
    let balance1 = link.get_balance(found, &pk1);
    let balance2 = link.get_balance(found, &pk2);

    assert_eq!(balance1, BalanceDelta::Pos(7));
    assert_eq!(balance2, BalanceDelta::Pos(62));
}

#[test]
fn create_link() {
    let mut chain = Blockchain::default();
    let genesis = chain.get_latest().block.clone();

    let next_block_1_0 = Block::create_block(1, &genesis.blockhash, vec![], 0);
    let next_block_1_1 = Block::create_block(1, &genesis.blockhash, vec![], 1);
    let next_block_2_0 = Block::create_block(2, &next_block_1_0.blockhash, vec![], 0);
    let next_block_2_1 = Block::create_block(2, &next_block_1_1.blockhash, vec![], 0);
    let next_block_4_0 = Block::create_block(4, &next_block_1_0.blockhash, vec![], 0);

    chain.try_insert(&next_block_1_0).unwrap();
    chain.try_insert(&next_block_1_1).unwrap();
    chain.try_insert(&next_block_2_0).unwrap();
    chain.try_insert(&next_block_2_1).unwrap();

    let tree = chain.tree();
    let root = tree.link(0);
    assert_eq!(tree.link(root.next_blocks[0]).block, next_block_1_0);
    assert_eq!(tree.link(root.next_blocks[1]).block, next_block_1_1);
    let first = tree.link(root.next_blocks[0]);
    assert_eq!(tree.link(first.next_blocks[0]).block, next_block_2_0);
    let second = tree.link(root.next_blocks[1]);
    assert_eq!(tree.link(second.next_blocks[0]).block, next_block_2_1);

    assert_eq!(chain.try_insert(&next_block_4_0), Err(GulfStreamError::DidNotFindPreviousBlock));
}

#[test]
fn genesis_hash_is_sha256_of_contents() {
    let g = Block::genesis();
    let mut input = Vec::new();
    input.extend(0u64.to_be_bytes());
    input.extend(0u64.to_be_bytes());
    input.extend(b"genesis".to_vec());
    let expected = Sha256::digest(&input).to_vec();
    assert_eq!(g.blockhash.0, expected);
    assert_eq!(g.previous_blockhash.0, b"genesis".to_vec());
    assert_eq!(g.compute_blockhash(), g.blockhash);
    let raw = Blockhash::from_raw_data(3, &g.blockhash, &vec![1u8, 2], 9);
    let mut input = Vec::new();
    input.extend(9u64.to_be_bytes());
    input.extend(3u64.to_be_bytes());
    input.extend(g.blockhash.0.clone());
    input.extend(vec![1u8, 2]);
    assert_eq!(raw.0, Sha256::digest(&input).to_vec());
}

#[test]
fn difficulty_predicate() {
    let h = Blockhash(vec![5u8, 0, 7]);
    assert!(!h.is_valid(0));
    assert!(!h.is_valid(1));
    assert!(h.is_valid(2));
    assert!(h.is_valid(3));
    assert!(Blockhash(vec![0u8]).is_valid(1));
}

#[test]
fn tree_insert_errors_and_search() {
    let mut tree = ForkTree::new(Block::genesis());
    let g = tree.link(0).block.clone();
    let wrong_index = Block::create_block(2, &g.blockhash, vec![], 0);
    assert_eq!(tree.try_insert(0, &wrong_index), Err(GulfStreamError::WrongIndex));
    let wrong_parent = Block::create_block(1, &Blockhash(vec![1u8]), vec![], 0);
    assert_eq!(tree.try_insert(0, &wrong_parent), Err(GulfStreamError::WrongParentBlockhash));
    let b1 = Block::create_block(1, &g.blockhash, vec![], 0);
    assert_eq!(tree.try_insert(0, &b1), Ok(1));
    // the same block again becomes a second child
    assert_eq!(tree.try_insert(0, &b1), Ok(2));
    assert_eq!(tree.link(0).next_blocks, vec![1usize, 2]);
    assert_eq!(tree.try_find_block(0, &b1.blockhash, 1), Ok(1));
    assert_eq!(tree.try_find_block(1, &g.blockhash, 0), Err(GulfStreamError::WrongIndex));
    assert_eq!(tree.try_find_block(0, &g.blockhash, 1), Err(GulfStreamError::BlockNotFound));
    assert_eq!(tree.try_find_block(0, &b1.blockhash, 0), Err(GulfStreamError::BlockNotFound));
    assert_eq!(tree.len(), 3);
}

#[test]
fn mint_then_transfer_balances() {
    let minter = random_key();
    let b = random_key();
    let mut chain = Blockchain::new();
    let g = chain.get_latest().block.clone();
    let block1 = Block::create_block(1, &g.blockhash, vec![tx(1, 0, TransactionMessage::Mint { amount: 40 }, &minter)], 0);
    chain.try_insert(&block1).unwrap();
    let block2 = Block::create_block(
        2,
        &block1.blockhash,
        vec![tx(2, 0, TransactionMessage::Transfer { to: b.clone(), amount: 15 }, &minter)],
        0,
    );
    chain.try_insert(&block2).unwrap();
    assert_eq!(chain.get_latest().block, block2);
    let at = chain.get_latest_index();
    assert_eq!(chain.tree().get_balance(at, &minter), BalanceDelta::Pos(25));
    assert_eq!(chain.tree().get_balance(at, &b), BalanceDelta::Pos(15));
    let ledger = Ledger { state: chain, mem_pool: vec![] };
    assert_eq!(ledger.get_balance(&minter), Ok(25));
    assert_eq!(ledger.get_balance(&b), Ok(15));
}

#[test]
fn end_to_end_scenario() {
    let account1 = random_key();
    let account2 = random_key();
    let mut ledger = Ledger::new();
    let g = ledger.get_latest_block();
    let block1 = Block::create_block(
        1,
        &g.blockhash,
        vec![
            tx(1, 0, TransactionMessage::Mint { amount: 12 }, &account1),
            tx(1, 0, TransactionMessage::Mint { amount: 57 }, &account2),
        ],
        0,
    );
    ledger.state.try_insert(&block1).unwrap();
    let block2 = Block::create_block(
        2,
        &block1.blockhash,
        vec![tx(2, 0, TransactionMessage::Transfer { to: account2.clone(), amount: 5 }, &account1)],
        0,
    );
    ledger.state.try_insert(&block2).unwrap();
    assert_eq!(ledger.get_balance(&account1), Ok(7));
    assert_eq!(ledger.get_balance(&account2), Ok(62));
}

#[test]
fn negative_balance_is_an_error() {
    let a = random_key();
    let b = random_key();
    let mut ledger = Ledger::new();
    let g = ledger.get_latest_block();
    let block1 = Block::create_block(
        1,
        &g.blockhash,
        vec![tx(1, 0, TransactionMessage::Transfer { to: b.clone(), amount: 5 }, &a)],
        0,
    );
    ledger.state.try_insert(&block1).unwrap();
    assert!(ledger.get_balance(&a).is_err());
    assert_eq!(ledger.get_balance(&b), Ok(5));
    assert_eq!(ledger.get_balance(&random_key()), Ok(0));
}

fn with_signature(mut t: Transaction, n: u8) -> Transaction {
    let mut bytes = vec![n; 63];
    bytes.push(0);
    t.signature = Signature::from_bytes(&bytes).unwrap();
    t
}

#[test]
fn builder_admits_only_covered_transactions() {
    let a = random_key();
    let b = random_key();
    let mut ledger = Ledger::new();
    let g = ledger.get_latest_block();
    let block1 = Block::create_block(1, &g.blockhash, vec![tx(1, 0, TransactionMessage::Mint { amount: 10 }, &a)], 0);
    ledger.state.try_insert(&block1).unwrap();

    let too_large =
        with_signature(tx(2, 9, TransactionMessage::Transfer { to: b.clone(), amount: 50 }, &a), 1);
    let covered =
        with_signature(tx(2, 1, TransactionMessage::Transfer { to: b.clone(), amount: 4 }, &a), 2);
    let other_height = with_signature(tx(5, 1, TransactionMessage::Mint { amount: 4 }, &b), 3);
    ledger.mem_pool = vec![too_large.clone(), covered.clone(), other_height.clone()];

    let built = ledger.try_build_block(1, &block1.blockhash).unwrap();
    assert_eq!(built.index, 2);
    assert_eq!(built.transactions, vec![covered.clone()]);
    assert!(built.blockhash.is_valid(1));
    assert_eq!(built.compute_blockhash(), built.blockhash);
    assert_eq!(ledger.mem_pool.len(), 2);
    assert!(ledger.mem_pool.contains(&too_large));
    assert!(ledger.mem_pool.contains(&other_height));
    assert_eq!(ledger.get_latest_block(), built);
    assert_eq!(ledger.get_balance(&a), Ok(6));
    assert_eq!(ledger.get_balance(&b), Ok(4));
    // the first nonce whose hash has a zero byte in front
    for n in 0..built.nonce {
        let raw = Transaction::get_raw_txs(&built.transactions);
        assert!(!Blockhash::from_raw_data(2, &block1.blockhash, &raw, n).is_valid(1));
    }
}

#[test]
fn builder_orders_by_gas() {
    let a = random_key();
    let b = random_key();
    let mut ledger = Ledger::new();
    let g = ledger.get_latest_block();
    let low = tx(1, 1, TransactionMessage::Mint { amount: 1 }, &a);
    let high = tx(1, 8, TransactionMessage::Mint { amount: 2 }, &b);
    let mid = tx(1, 4, TransactionMessage::Mint { amount: 3 }, &a);
    ledger.mem_pool = vec![low.clone(), high.clone(), mid.clone()];
    let built = ledger.try_build_block(0, &g.blockhash).unwrap();
    assert_eq!(built.transactions, vec![high, mid, low]);
    assert!(ledger.mem_pool.is_empty());
    assert!(ledger.try_build_block(1, &built.blockhash).is_none());
}

#[test]
fn builder_does_nothing_without_work() {
    let mut ledger = Ledger::new();
    let g = ledger.get_latest_block();
    assert!(ledger.try_build_block(0, &g.blockhash).is_none());
    let a = random_key();
    ledger.mem_pool = vec![tx(3, 0, TransactionMessage::Mint { amount: 1 }, &a)];
    assert!(ledger.try_build_block(0, &g.blockhash).is_none());
    assert_eq!(ledger.mem_pool.len(), 1);
    // a parent that the chain does not hold
    ledger.mem_pool = vec![tx(1, 0, TransactionMessage::Mint { amount: 1 }, &a)];
    assert!(ledger.try_build_block(0, &Blockhash(vec![7u8])).is_none());
    assert_eq!(ledger.mem_pool.len(), 1);
}

#[test]
fn submit_checks_validity() {
    let mut ledger = Ledger::new();
    let a = random_key();
    let unsigned = Transaction {
        blockheight: 1,
        gas: 0,
        msg: TransactionMessage::Mint { amount: 1 },
        payer: a,
        signature: Signature::default(),
    };
    assert_eq!(ledger.submit_transaction(unsigned), Err(GulfStreamError::TxIsNotValid));
    assert!(ledger.mem_pool.is_empty());
}

#[test]
fn transaction_states() {
    let a = random_key();
    let t = tx(1, 0, TransactionMessage::Mint { amount: 1 }, &a);
    let s = t.clone().into_tx_state();
    assert!(s.is_pending());
    assert_eq!(s.into_tx(), &t);
    let done = s.success();
    assert!(!done.is_pending());
    assert!(matches!(done, TransactionState::Success(_)));
    let failed = TransactionState::Fail(t.clone()).success();
    assert!(matches!(failed, TransactionState::Fail(_)));
    assert_eq!(failed.into_tx(), &t);
    let raw = TransactionState::get_raw_txs(&vec![done]);
    assert_eq!(raw, Transaction::get_raw_txs(&vec![t]));
}

#[test]
fn error_helpers() {
    assert_eq!(GulfStreamError::map("x".to_string()), GulfStreamError::Generic("x".to_string()));
    assert_eq!(GulfStreamError::default(), GulfStreamError::Default);
}

#[test]
fn negative_zero_balance_is_zero() {
    let a = random_key();
    let b = random_key();
    let mut ledger = Ledger::new();
    let g = ledger.get_latest_block();
    let block1 = Block::create_block(
        1,
        &g.blockhash,
        vec![tx(1, 0, TransactionMessage::Transfer { to: b.clone(), amount: 5 }, &a)],
        0,
    );
    ledger.state.try_insert(&block1).unwrap();
    let block2 = Block::create_block(
        2,
        &block1.blockhash,
        vec![tx(2, 0, TransactionMessage::Mint { amount: 5 }, &a)],
        0,
    );
    ledger.state.try_insert(&block2).unwrap();
    let at = ledger.state.get_latest_index();
    // Pos(5) on top of Neg(5) cancels to a negative zero
    assert_eq!(ledger.state.tree().get_balance(at, &a), BalanceDelta::Neg(0));
    assert_eq!(ledger.get_balance(&a), Ok(0));
    assert_eq!(ledger.get_balance(&b), Ok(5));
}

#[test]
fn builder_reads_balances_at_the_extended_block() {
    let a = random_key();
    let b = random_key();
    let mut ledger = Ledger::new();
    let g = ledger.get_latest_block();
    let fork1 = Block::create_block(1, &g.blockhash, vec![], 0);
    let rich = Block::create_block(1, &g.blockhash, vec![tx(1, 0, TransactionMessage::Mint { amount: 10 }, &a)], 1);
    let rich2 = Block::create_block(2, &rich.blockhash, vec![], 0);
    ledger.state.try_insert(&fork1).unwrap();
    ledger.state.try_insert(&rich).unwrap();
    ledger.state.try_insert(&rich2).unwrap();
    // the highest block is on the funded branch; extending the empty one sees no funds
    let spend = with_signature(tx(2, 0, TransactionMessage::Transfer { to: b.clone(), amount: 4 }, &a), 1);
    ledger.mem_pool = vec![spend.clone()];
    assert!(ledger.try_build_block(1, &fork1.blockhash).is_none());
    assert_eq!(ledger.mem_pool.len(), 1);
    let built = ledger.try_build_block(1, &rich.blockhash).unwrap();
    assert_eq!(built.transactions, vec![spend]);
    assert_eq!(built.previous_blockhash, rich.blockhash);
}

#[test]
fn genesis_chain_state() {
    let chain = Blockchain::default();
    assert_eq!(chain.tree().len(), 1);
    assert_eq!(chain.get_latest().block, Block::genesis());
    assert!(chain.get_latest().next_blocks.is_empty());
    assert_eq!(chain.get_latest().block_parent, None);
    assert_eq!(chain.get_latest().block.nonce, 0);
}

#[test]
fn builder_books_credits_on_a_negative_balance() {
    let p = random_key();
    let q = random_key();
    let a = random_key();
    let b = random_key();
    let r = random_key();
    let mut ledger = Ledger::new();
    let g = ledger.get_latest_block();
    let block1 = Block::create_block(
        1,
        &g.blockhash,
        vec![
            tx(1, 0, TransactionMessage::Mint { amount: 20 }, &a),
            tx(1, 0, TransactionMessage::Mint { amount: 20 }, &b),
            tx(1, 0, TransactionMessage::Transfer { to: q.clone(), amount: 10 }, &p),
        ],
        0,
    );
    ledger.state.try_insert(&block1).unwrap();
    assert!(ledger.get_balance(&p).is_err());
    let plus3 = with_signature(tx(2, 3, TransactionMessage::Transfer { to: p.clone(), amount: 3 }, &a), 1);
    let plus9 = with_signature(tx(2, 2, TransactionMessage::Transfer { to: p.clone(), amount: 9 }, &b), 2);
    let minus1 = with_signature(tx(2, 1, TransactionMessage::Transfer { to: r.clone(), amount: 1 }, &p), 3);
    ledger.mem_pool = vec![minus1.clone(), plus9.clone(), plus3.clone()];
    let built = ledger.try_build_block(1, &block1.blockhash).unwrap();
    // -10 + 3 + 9 = 2 covers the spend of 1
    assert_eq!(built.transactions, vec![plus3, plus9, minus1]);
    assert!(ledger.mem_pool.is_empty());
    assert_eq!(ledger.get_balance(&p), Ok(1));
    assert_eq!(ledger.get_balance(&r), Ok(1));
}

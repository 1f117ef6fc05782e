//! Block hashes: SHA-256 over a block's contents, and the proof-of-work test.
use crate::transaction::{txs_encoding, views, Transaction};
use vstd::prelude::*;
use sha2::Digest;

verus! {

/// The SHA-256 digest of a byte string.
pub uninterp spec fn sha256_of(data: Seq<u8>) -> Seq<u8>;

/// Relies on `sha2::Sha256::digest`: the 32-byte digest of `data`.
#[verifier::external_body]
fn sha256(data: &[u8]) -> (r: Vec<u8>)
    ensures
        r@ == sha256_of(data@),
        r@.len() == 32,
{
    sha2::Sha256::digest(data).to_vec()
}

/// The big-endian bytes of `x`.
pub open spec fn be_bytes(x: u64) -> Seq<u8> {
    seq![
        ((x >> 56u64) & 0xff) as u8,
        ((x >> 48u64) & 0xff) as u8,
        ((x >> 40u64) & 0xff) as u8,
        ((x >> 32u64) & 0xff) as u8,
        ((x >> 24u64) & 0xff) as u8,
        ((x >> 16u64) & 0xff) as u8,
        ((x >> 8u64) & 0xff) as u8,
        (x & 0xff) as u8,
    ]
}

fn push_be(out: &mut Vec<u8>, x: u64)
    ensures
        final(out)@ == old(out)@ + be_bytes(x),
{
    out.push(((x >> 56u64) & 0xff) as u8);
    out.push(((x >> 48u64) & 0xff) as u8);
    out.push(((x >> 40u64) & 0xff) as u8);
    out.push(((x >> 32u64) & 0xff) as u8);
    out.push(((x >> 24u64) & 0xff) as u8);
    out.push(((x >> 16u64) & 0xff) as u8);
    out.push(((x >> 8u64) & 0xff) as u8);
    out.push((x & 0xff) as u8);
    assert(out@ =~= old(out)@ + be_bytes(x));
}

/// What is hashed for a block: nonce and index big-endian, the parent's
/// hash, the encoded transactions.
pub open spec fn hash_input(index: u64, previous: Seq<u8>, raw_txs: Seq<u8>, nonce: u64) -> Seq<
    u8,
> {
    be_bytes(nonce) + be_bytes(index) + previous + raw_txs
}

/// The hash of a block with these contents.
pub open spec fn block_hash(index: u64, previous: Seq<u8>, raw_txs: Seq<u8>, nonce: u64) -> Seq<
    u8,
> {
    sha256_of(hash_input(index, previous, raw_txs, nonce))
}

/// The proof-of-work test: one of the first `difficulty` bytes is zero.
pub open spec fn meets_difficulty(h: Seq<u8>, difficulty: nat) -> bool {
    exists|i: int| 0 <= i < difficulty && h[i] == 0
}

/// The raw bytes of a block hash.
#[derive(Debug)]
pub struct Blockhash(pub Vec<u8>);

impl View for Blockhash {
    type V = Seq<u8>;

    open spec fn view(&self) -> Seq<u8> {
        self.0@
    }
}

impl Clone for Blockhash {
    fn clone(&self) -> (r: Self)
        ensures
            r@ == self@,
    {
        Blockhash(crate::keys::copy_bytes(&self.0))
    }
}

impl PartialEq for Blockhash {
    fn eq(&self, o: &Blockhash) -> (r: bool) {
        crate::keys::bytes_eq(self.0.as_slice(), o.0.as_slice())
    }
}

impl vstd::std_specs::cmp::PartialEqSpecImpl for Blockhash {
    open spec fn obeys_eq_spec() -> bool {
        true
    }

    open spec fn eq_spec(&self, o: &Blockhash) -> bool {
        self@ == o@
    }
}

impl Eq for Blockhash {}

impl Default for Blockhash {
    fn default() -> (r: Self)
        ensures
            r@ == Seq::<u8>::empty(),
    {
        Blockhash(Vec::new())
    }
}

impl Blockhash {
    /// The hash of a block whose transactions are already encoded.
    pub fn from_raw_data(
        index: u64,
        previous_blockhash: &Blockhash,
        transactions: &Vec<u8>,
        nonce: u64,
    ) -> (r: Blockhash)
        ensures
            r@ == block_hash(index, previous_blockhash@, transactions@, nonce),
            r@.len() == 32,
    {
        let mut input: Vec<u8> = Vec::new();
        push_be(&mut input, nonce);
        push_be(&mut input, index);
        crate::codec::push_all(&mut input, previous_blockhash.0.as_slice());
        crate::codec::push_all(&mut input, transactions.as_slice());
        assert(input@ =~= hash_input(index, previous_blockhash@, transactions@, nonce));
        Blockhash(sha256(input.as_slice()))
    }

    /// The hash of a block with these contents.
    pub fn from_data(
        index: u64,
        previous_blockhash: &Blockhash,
        transactions: &Vec<Transaction>,
        nonce: u64,
    ) -> (r: Blockhash)
        ensures
            r@ == block_hash(index, previous_blockhash@, txs_encoding(views(transactions@)), nonce),
            r@.len() == 32,
    {
        let raw = Transaction::get_raw_txs(transactions);
        Blockhash::from_raw_data(index, previous_blockhash, &raw, nonce)
    }

    /// Whether one of the first `difficulty` bytes is zero.
    pub fn is_valid(&self, difficulty: usize) -> (r: bool)
        requires
            difficulty <= self@.len(),
        ensures
            r == meets_difficulty(self@, difficulty as nat),
    {
        let mut i: usize = 0;
        while i < difficulty
            invariant
                i <= difficulty <= self@.len(),
                forall|j: int| 0 <= j < i ==> self@[j] != 0,
            decreases difficulty - i,
        {
            if self.0[i] == 0 {
                return true;
            }
            i = i + 1;
        }
        false
    }
}

/// The test on a zero difficulty looks at no byte, so it never passes.
pub proof fn lemma_zero_difficulty_never_met(h: Seq<u8>)
    ensures
        !meets_difficulty(h, 0),
{
}

} // verus!
